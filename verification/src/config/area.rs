//! Metadata for an area on the board: its name and how its values are shown
//! by the target selection controls.

use vstd::prelude::*;

verus! {

/// How a value of an area is rendered for display.
#[derive(Debug, Clone)]
pub enum AreaValueFormatter {
    /// Displays the value as is.
    Plain,
    /// Formats the value as an ordinal number.
    Nth,
    /// Wraps the value in a fixed prefix and suffix.
    PrefixSuffix { prefix: String, suffix: String },
}

/// Metadata for an area on the board: name, value formatter and the value
/// selected by default.
#[derive(Debug, Clone)]
pub struct AreaConfig {
    name: String,
    formatter: AreaValueFormatter,
    default_value: String,
}

impl AreaConfig {
    /// The area's name.
    pub closed spec fn spec_name(self) -> Seq<char> {
        self.name@
    }

    /// The area's value formatter.
    pub closed spec fn spec_formatter(self) -> AreaValueFormatter {
        self.formatter
    }

    /// The area's default value.
    pub closed spec fn spec_default_value(self) -> Seq<char> {
        self.default_value@
    }

    pub fn new(
        name: String,
        area_value_formatter: AreaValueFormatter,
        default_value: String,
    ) -> (res: Self)
        ensures
            res.spec_name() == name@,
            res.spec_formatter() == area_value_formatter,
            res.spec_default_value() == default_value@,
    {
        AreaConfig { name, formatter: area_value_formatter, default_value }
    }

    pub fn name(&self) -> (r: &str)
        ensures
            r@ == self.spec_name(),
    {
        self.name.as_str()
    }

    pub fn formatter(&self) -> (r: &AreaValueFormatter)
        ensures
            *r == self.spec_formatter(),
    {
        &self.formatter
    }

    pub fn default_value(&self) -> (r: &str)
        ensures
            r@ == self.spec_default_value(),
    {
        self.default_value.as_str()
    }
}

} // verus!
