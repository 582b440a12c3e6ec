//! Targets and their display formatting: a target names one cell per area,
//! and a template turns the targeted display values into a label.

use vstd::prelude::*;
use vstd::string::StrSliceExecFns;
use vstd::string::StringExecFns;

use crate::config::area::{AreaConfig, AreaValueFormatter};
use crate::grid::lemma_rowmajor;
use crate::text::str_eq;

verus! {

/// The index of a target cell on the board.
#[derive(Debug, Clone, Copy, PartialEq, Eq, Structural)]
pub struct TargetIndex(pub usize, pub usize);

/// A target for the puzzle: one cell index per area of the puzzle.
#[derive(Debug, Clone)]
pub struct Target {
    pub indices: Vec<TargetIndex>,
}

/// A template for the label of a target.  The placeholders `{0}`, `{1}` and
/// so on stand for the display values of the target's cells, each formatted
/// with its area's formatter.
#[derive(Debug, Clone)]
pub struct TargetTemplate(String);

/// An ordinal suffix for the day values that need a special one; every other
/// value takes `th`.
pub open spec fn spec_nth(value: Seq<char>) -> Seq<char> {
    if value == "1"@ {
        "1st"@
    } else if value == "2"@ {
        "2nd"@
    } else if value == "3"@ {
        "3rd"@
    } else if value == "21"@ {
        "21st"@
    } else if value == "22"@ {
        "22nd"@
    } else if value == "23"@ {
        "23rd"@
    } else if value == "31"@ {
        "31st"@
    } else {
        value + "th"@
    }
}

/// How one display value is rendered under an area's formatter.
pub open spec fn spec_format_value(value: Seq<char>, f: AreaValueFormatter) -> Seq<char> {
    match f {
        AreaValueFormatter::Plain => value,
        AreaValueFormatter::Nth => spec_nth(value),
        AreaValueFormatter::PrefixSuffix { prefix, suffix } => prefix@ + value + suffix@,
    }
}

impl TargetTemplate {
    /// The template's text.
    pub closed spec fn template(self) -> Seq<char> {
        self.0@
    }

    pub fn new(template: &str) -> (res: Self)
        ensures
            res.template() == template@,
    {
        TargetTemplate(template.to_owned())
    }

    /// Renders one display value under an area's formatter: as is, as an
    /// ordinal, or wrapped in the area's prefix and suffix.
    pub fn format_value(&self, value: &str, area_config: &AreaConfig) -> (r: String)
        ensures
            r@ == spec_format_value(value@, area_config.spec_formatter()),
    {
        match area_config.formatter() {
            AreaValueFormatter::Plain => value.to_owned(),
            AreaValueFormatter::Nth => {
                if str_eq(value, "1") {
                    let r = String::new();
                    let mut r = r;
                    r.append("1st");
                    r
                } else if str_eq(value, "2") {
                    let mut r = String::new();
                    r.append("2nd");
                    r
                } else if str_eq(value, "3") {
                    let mut r = String::new();
                    r.append("3rd");
                    r
                } else if str_eq(value, "21") {
                    let mut r = String::new();
                    r.append("21st");
                    r
                } else if str_eq(value, "22") {
                    let mut r = String::new();
                    r.append("22nd");
                    r
                } else if str_eq(value, "23") {
                    let mut r = String::new();
                    r.append("23rd");
                    r
                } else if str_eq(value, "31") {
                    let mut r = String::new();
                    r.append("31st");
                    r
                } else {
                    let mut r = value.to_owned();
                    r.append("th");
                    r
                }
            },
            AreaValueFormatter::PrefixSuffix { prefix, suffix } => {
                let mut r = prefix.clone();
                r.append(value);
                r.append(suffix.as_str());
                r
            },
        }
    }
}


/// A rectangular grid of display texts stored row-major.
#[derive(Debug)]
pub struct TextGrid {
    rows: usize,
    cols: usize,
    cells: Vec<String>,
}

impl TextGrid {
    pub closed spec fn spec_rows(self) -> nat {
        self.rows as nat
    }

    pub closed spec fn spec_cols(self) -> nat {
        self.cols as nat
    }

    pub closed spec fn spec_cells(self) -> Seq<Seq<char>> {
        self.cells@.map_values(|s: String| s@)
    }

    pub open spec fn wf(self) -> bool {
        self.spec_cells().len() == self.spec_rows() * self.spec_cols()
    }

    /// The text in row `i`, column `j`.
    pub open spec fn text(self, i: int, j: int) -> Seq<char> {
        self.spec_cells()[i * self.spec_cols() + j]
    }

    pub fn from_cells(rows: usize, cols: usize, cells: Vec<String>) -> (res: TextGrid)
        requires
            cells.len() == rows * cols,
        ensures
            res.wf(),
            res.spec_rows() == rows,
            res.spec_cols() == cols,
            res.spec_cells() == cells@.map_values(|s: String| s@),
    {
        TextGrid { rows, cols, cells }
    }

    pub fn rows(&self) -> (r: usize)
        ensures
            r == self.spec_rows(),
    {
        self.rows
    }

    pub fn cols(&self) -> (r: usize)
        ensures
            r == self.spec_cols(),
    {
        self.cols
    }

    pub fn get(&self, i: usize, j: usize) -> (r: &String)
        requires
            self.wf(),
            i < self.spec_rows(),
            j < self.spec_cols(),
        ensures
            r@ == self.text(i as int, j as int),
    {
        proof {
            lemma_rowmajor(i as int, j as int, self.spec_rows() as int, self.spec_cols() as int);
        }
        let n = self.cells.len();
        assert(i as int * self.spec_cols() as int + j < n);
        &self.cells[i * self.cols + j]
    }
}

/// The digit value of a placeholder character.
pub open spec fn placeholder_digit(c: char) -> int {
    c as u32 - '0' as u32
}

/// The template with each placeholder `{d}` replaced by the `d`-th value;
/// a placeholder without a matching value stays as it is.
pub open spec fn spec_format(tpl: Seq<char>, vals: Seq<Seq<char>>) -> Seq<char>
    decreases tpl.len(),
{
    if tpl.len() == 0 {
        Seq::empty()
    } else if tpl.len() >= 3 && tpl[0] == '{' && '0' as u32 <= tpl[1] as u32 && tpl[1] as u32
        <= '9' as u32 && tpl[2] == '}' && placeholder_digit(tpl[1]) < vals.len() {
        vals[placeholder_digit(tpl[1])] + spec_format(tpl.skip(3), vals)
    } else {
        seq![tpl[0]] + spec_format(tpl.skip(1), vals)
    }
}

/// The display value the target's `k`-th index picks out of the board
/// values, run through its area's formatter; a missing cell shows as `???`.
pub open spec fn spec_target_value(
    idx: TargetIndex,
    k: int,
    bv: TextGrid,
    acs: Seq<AreaConfig>,
) -> Seq<char> {
    let raw = if idx.0 < bv.spec_rows() && idx.1 < bv.spec_cols() {
        bv.text(idx.0 as int, idx.1 as int)
    } else {
        "???"@
    };
    if k < acs.len() {
        spec_format_value(raw, acs[k].spec_formatter())
    } else {
        raw
    }
}

/// The formatted display values of all of a target's indices.
pub open spec fn spec_target_values(
    indices: Seq<TargetIndex>,
    bv: TextGrid,
    acs: Seq<AreaConfig>,
) -> Seq<Seq<char>> {
    Seq::new(indices.len(), |k: int| spec_target_value(indices[k], k, bv, acs))
}

impl TargetTemplate {
    /// Renders the label for a target: looks the target's display values up,
    /// formats each with its area's formatter, and substitutes them for the
    /// `{0}`, `{1}`, ... placeholders of the template.
    pub fn format(
        &self,
        target: &Target,
        board_values: &TextGrid,
        area_configs: &Vec<AreaConfig>,
    ) -> (r: String)
        requires
            board_values.wf(),
            board_values.spec_rows() * board_values.spec_cols() <= usize::MAX,
        ensures
            r@ == spec_format(
                self.template(),
                spec_target_values(target.indices@, *board_values, area_configs@),
            ),
    {
        let ghost sv = spec_target_values(target.indices@, *board_values, area_configs@);
        let mut vals: Vec<String> = Vec::new();
        let ni = target.indices.len();
        let mut k: usize = 0;
        while k < ni
            invariant
                board_values.wf(),
                board_values.spec_rows() * board_values.spec_cols() <= usize::MAX,
                ni == target.indices@.len(),
                sv == spec_target_values(target.indices@, *board_values, area_configs@),
                sv.len() == ni,
                k <= ni,
                vals@.len() == k,
                forall|m: int| 0 <= m < k ==> (#[trigger] vals@[m])@ == sv[m],
            decreases ni - k,
        {
            let TargetIndex(x, y) = target.indices[k];
            let raw: String = if x < board_values.rows() && y < board_values.cols() {
                board_values.get(x, y).clone()
            } else {
                let mut q = String::new();
                q.append("???");
                q
            };
            let v: String = if k < area_configs.len() {
                self.format_value(raw.as_str(), &area_configs[k])
            } else {
                raw
            };
            vals.push(v);
            proof {
                assert(vals@[k as int]@ == sv[k as int]);
            }
            k = k + 1;
        }

        let tpl = self.0.as_str();
        let n = tpl.unicode_len();
        let mut out = String::new();
        let mut seg: usize = 0;
        let mut pos: usize = 0;
        proof {
            assert(tpl@.skip(0) =~= tpl@);
            assert(out@ + tpl@.subrange(0, 0) + spec_format(tpl@.skip(0), sv) =~= spec_format(
                tpl@,
                sv,
            ));
        }
        while pos < n
            invariant
                tpl@ == self.template(),
                n == tpl@.len(),
                seg <= pos <= n,
                sv.len() == vals@.len(),
                forall|m: int| 0 <= m < vals@.len() ==> (#[trigger] vals@[m])@ == sv[m],
                spec_format(tpl@, sv) == out@ + tpl@.subrange(seg as int, pos as int)
                    + spec_format(tpl@.skip(pos as int), sv),
            decreases n - pos,
        {
            let c = tpl.get_char(pos);
            let mut di: usize = 0;
            let mut is_ph = false;
            if c == '{' && n - pos > 2 {
                let d = tpl.get_char(pos + 1);
                let e = tpl.get_char(pos + 2);
                if '0' as u32 <= d as u32 && d as u32 <= '9' as u32 && e == '}' {
                    let dv = (d as u32 - '0' as u32) as usize;
                    if dv < vals.len() {
                        di = dv;
                        is_ph = true;
                    }
                }
            }
            let ghost rest = tpl@.skip(pos as int);
            proof {
                assert(rest.len() == n - pos);
                assert(rest[0] == tpl@[pos as int]);
                if rest.len() >= 3 {
                    assert(rest[1] == tpl@[pos + 1]);
                    assert(rest[2] == tpl@[pos + 2]);
                }
            }
            if is_ph {
                proof {
                    assert(rest.len() >= 3);
                    assert(spec_format(rest, sv) == sv[placeholder_digit(rest[1])] + spec_format(
                        rest.skip(3),
                        sv,
                    ));
                    assert(placeholder_digit(rest[1]) == di);
                    assert(rest.skip(3) =~= tpl@.skip(pos + 3));
                }
                let piece = tpl.substring_char(seg, pos);
                out.append(piece);
                out.append(vals[di].as_str());
                proof {
                    assert(vals@[di as int]@ == sv[di as int]);
                    assert(out@ + tpl@.subrange(pos + 3, pos + 3) =~= out@);
                    assert(spec_format(tpl@, sv) == out@ + tpl@.subrange(pos + 3, pos + 3)
                        + spec_format(tpl@.skip(pos + 3), sv)) by {
                        assert(out@ =~= (out@ + tpl@.subrange(pos + 3, pos + 3)));
                        assert(spec_format(tpl@, sv) =~= out@ + spec_format(tpl@.skip(pos + 3), sv));
                    }
                }
                pos = pos + 3;
                seg = pos;
            } else {
                proof {
                    assert(!(rest.len() >= 3 && rest[0] == '{' && '0' as u32 <= rest[1] as u32
                        && rest[1] as u32 <= '9' as u32 && rest[2] == '}' && placeholder_digit(
                        rest[1],
                    ) < sv.len()));
                    assert(spec_format(rest, sv) == seq![rest[0]] + spec_format(rest.skip(1), sv));
                    assert(rest.skip(1) =~= tpl@.skip(pos + 1));
                    assert(tpl@.subrange(seg as int, pos + 1) =~= tpl@.subrange(
                        seg as int,
                        pos as int,
                    ) + seq![tpl@[pos as int]]);
                    assert(spec_format(tpl@, sv) =~= out@ + tpl@.subrange(seg as int, pos + 1)
                        + spec_format(tpl@.skip(pos + 1), sv));
                }
                pos = pos + 1;
            }
        }
        let tail = tpl.substring_char(seg, n);
        out.append(tail);
        proof {
            assert(tpl@.skip(n as int) =~= Seq::<char>::empty());
            assert(spec_format(tpl@.skip(n as int), sv) =~= Seq::<char>::empty());
        }
        out
    }
}

} // verus!
