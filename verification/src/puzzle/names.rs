//! Target names for the built-in puzzles: a calendar date, optionally
//! followed by a two-digit year.

use vstd::prelude::*;
use vstd::string::StringExecFns;

verus! {

/// The value a user selected for one meaning area.
#[derive(Debug, Clone, Copy, PartialEq, Eq, Structural)]
pub struct MeaningSelection {
    pub selected_value: i32,
}

/// The values a user selected, one per meaning area of the puzzle.
#[derive(Debug, Clone)]
pub struct TargetSelection {
    pub meaning_selections: Vec<MeaningSelection>,
}

/// The display name of a day of the month: an ordinal, two-digit padded
/// where the ordinal suffix alone would leave a single digit.
pub open spec fn spec_day_name(day: int) -> Seq<char> {
    if day == 1 {
        "1st"@
    } else if day == 2 {
        "2nd"@
    } else if day == 3 {
        "3rd"@
    } else if day == 4 {
        "04th"@
    } else if day == 5 {
        "05th"@
    } else if day == 6 {
        "06th"@
    } else if day == 7 {
        "07th"@
    } else if day == 8 {
        "08th"@
    } else if day == 9 {
        "09th"@
    } else if day == 10 {
        "10th"@
    } else if day == 11 {
        "11th"@
    } else if day == 12 {
        "12th"@
    } else if day == 13 {
        "13th"@
    } else if day == 14 {
        "14th"@
    } else if day == 15 {
        "15th"@
    } else if day == 16 {
        "16th"@
    } else if day == 17 {
        "17th"@
    } else if day == 18 {
        "18th"@
    } else if day == 19 {
        "19th"@
    } else if day == 20 {
        "20th"@
    } else if day == 21 {
        "21st"@
    } else if day == 22 {
        "22nd"@
    } else if day == 23 {
        "23rd"@
    } else if day == 24 {
        "24th"@
    } else if day == 25 {
        "25th"@
    } else if day == 26 {
        "26th"@
    } else if day == 27 {
        "27th"@
    } else if day == 28 {
        "28th"@
    } else if day == 29 {
        "29th"@
    } else if day == 30 {
        "30th"@
    } else if day == 31 {
        "31st"@
    } else {
        Seq::empty()
    }
}

/// The display name of a month: its three-letter abbreviation.
pub open spec fn spec_month_name(month: int) -> Seq<char> {
    if month == 1 {
        "Jan"@
    } else if month == 2 {
        "Feb"@
    } else if month == 3 {
        "Mar"@
    } else if month == 4 {
        "Apr"@
    } else if month == 5 {
        "May"@
    } else if month == 6 {
        "Jun"@
    } else if month == 7 {
        "Jul"@
    } else if month == 8 {
        "Aug"@
    } else if month == 9 {
        "Sep"@
    } else if month == 10 {
        "Oct"@
    } else if month == 11 {
        "Nov"@
    } else if month == 12 {
        "Dec"@
    } else {
        Seq::empty()
    }
}

/// The display form of a single year digit.
pub open spec fn spec_digit_name(digit: int) -> Seq<char> {
    if digit == 0 {
        "0"@
    } else if digit == 1 {
        "1"@
    } else if digit == 2 {
        "2"@
    } else if digit == 3 {
        "3"@
    } else if digit == 4 {
        "4"@
    } else if digit == 5 {
        "5"@
    } else if digit == 6 {
        "6"@
    } else if digit == 7 {
        "7"@
    } else if digit == 8 {
        "8"@
    } else if digit == 9 {
        "9"@
    } else {
        Seq::empty()
    }
}

/// The ordinal display name of a day, or an error for a value outside
/// `1 ..= 31`.
pub fn construct_day_name(day: i32) -> (r: Result<String, String>)
    ensures
        (r is Ok) <==> 1 <= day <= 31,
        r matches Ok(s) ==> s@ == spec_day_name(day as int),
        r matches Err(e) ==> e@ == "Day value out of range"@,
{
    match day {
        1 => {
            let mut s = String::new();
            s.append("1st");
            Ok(s)
        },
        2 => {
            let mut s = String::new();
            s.append("2nd");
            Ok(s)
        },
        3 => {
            let mut s = String::new();
            s.append("3rd");
            Ok(s)
        },
        4 => {
            let mut s = String::new();
            s.append("04th");
            Ok(s)
        },
        5 => {
            let mut s = String::new();
            s.append("05th");
            Ok(s)
        },
        6 => {
            let mut s = String::new();
            s.append("06th");
            Ok(s)
        },
        7 => {
            let mut s = String::new();
            s.append("07th");
            Ok(s)
        },
        8 => {
            let mut s = String::new();
            s.append("08th");
            Ok(s)
        },
        9 => {
            let mut s = String::new();
            s.append("09th");
            Ok(s)
        },
        10 => {
            let mut s = String::new();
            s.append("10th");
            Ok(s)
        },
        11 => {
            let mut s = String::new();
            s.append("11th");
            Ok(s)
        },
        12 => {
            let mut s = String::new();
            s.append("12th");
            Ok(s)
        },
        13 => {
            let mut s = String::new();
            s.append("13th");
            Ok(s)
        },
        14 => {
            let mut s = String::new();
            s.append("14th");
            Ok(s)
        },
        15 => {
            let mut s = String::new();
            s.append("15th");
            Ok(s)
        },
        16 => {
            let mut s = String::new();
            s.append("16th");
            Ok(s)
        },
        17 => {
            let mut s = String::new();
            s.append("17th");
            Ok(s)
        },
        18 => {
            let mut s = String::new();
            s.append("18th");
            Ok(s)
        },
        19 => {
            let mut s = String::new();
            s.append("19th");
            Ok(s)
        },
        20 => {
            let mut s = String::new();
            s.append("20th");
            Ok(s)
        },
        21 => {
            let mut s = String::new();
            s.append("21st");
            Ok(s)
        },
        22 => {
            let mut s = String::new();
            s.append("22nd");
            Ok(s)
        },
        23 => {
            let mut s = String::new();
            s.append("23rd");
            Ok(s)
        },
        24 => {
            let mut s = String::new();
            s.append("24th");
            Ok(s)
        },
        25 => {
            let mut s = String::new();
            s.append("25th");
            Ok(s)
        },
        26 => {
            let mut s = String::new();
            s.append("26th");
            Ok(s)
        },
        27 => {
            let mut s = String::new();
            s.append("27th");
            Ok(s)
        },
        28 => {
            let mut s = String::new();
            s.append("28th");
            Ok(s)
        },
        29 => {
            let mut s = String::new();
            s.append("29th");
            Ok(s)
        },
        30 => {
            let mut s = String::new();
            s.append("30th");
            Ok(s)
        },
        31 => {
            let mut s = String::new();
            s.append("31st");
            Ok(s)
        },
        _ => {
            let mut s = String::new();
            s.append("Day value out of range");
            Err(s)
        },
    }
}

/// The abbreviated display name of a month, or an error for a value outside
/// `1 ..= 12`.
pub fn construct_month_name(month: i32) -> (r: Result<String, String>)
    ensures
        (r is Ok) <==> 1 <= month <= 12,
        r matches Ok(s) ==> s@ == spec_month_name(month as int),
        r matches Err(e) ==> e@ == "Month value out of range"@,
{
    match month {
        1 => {
            let mut s = String::new();
            s.append("Jan");
            Ok(s)
        },
        2 => {
            let mut s = String::new();
            s.append("Feb");
            Ok(s)
        },
        3 => {
            let mut s = String::new();
            s.append("Mar");
            Ok(s)
        },
        4 => {
            let mut s = String::new();
            s.append("Apr");
            Ok(s)
        },
        5 => {
            let mut s = String::new();
            s.append("May");
            Ok(s)
        },
        6 => {
            let mut s = String::new();
            s.append("Jun");
            Ok(s)
        },
        7 => {
            let mut s = String::new();
            s.append("Jul");
            Ok(s)
        },
        8 => {
            let mut s = String::new();
            s.append("Aug");
            Ok(s)
        },
        9 => {
            let mut s = String::new();
            s.append("Sep");
            Ok(s)
        },
        10 => {
            let mut s = String::new();
            s.append("Oct");
            Ok(s)
        },
        11 => {
            let mut s = String::new();
            s.append("Nov");
            Ok(s)
        },
        12 => {
            let mut s = String::new();
            s.append("Dec");
            Ok(s)
        },
        _ => {
            let mut s = String::new();
            s.append("Month value out of range");
            Err(s)
        },
    }
}

/// The display form of one year digit, or an error for a value outside
/// `0 ..= 9`.
pub fn construct_digit_name(digit: i32) -> (r: Result<String, String>)
    ensures
        (r is Ok) <==> 0 <= digit <= 9,
        r matches Ok(s) ==> s@ == spec_digit_name(digit as int),
        r matches Err(e) ==> e@ == "Year digit out of range"@,
{
    match digit {
        0 => {
            let mut s = String::new();
            s.append("0");
            Ok(s)
        },
        1 => {
            let mut s = String::new();
            s.append("1");
            Ok(s)
        },
        2 => {
            let mut s = String::new();
            s.append("2");
            Ok(s)
        },
        3 => {
            let mut s = String::new();
            s.append("3");
            Ok(s)
        },
        4 => {
            let mut s = String::new();
            s.append("4");
            Ok(s)
        },
        5 => {
            let mut s = String::new();
            s.append("5");
            Ok(s)
        },
        6 => {
            let mut s = String::new();
            s.append("6");
            Ok(s)
        },
        7 => {
            let mut s = String::new();
            s.append("7");
            Ok(s)
        },
        8 => {
            let mut s = String::new();
            s.append("8");
            Ok(s)
        },
        9 => {
            let mut s = String::new();
            s.append("9");
            Ok(s)
        },
        _ => {
            let mut s = String::new();
            s.append("Year digit out of range");
            Err(s)
        },
    }
}

/// The target name of the date puzzle: day and month.
pub open spec fn spec_default_target_name(day: int, month: int) -> Seq<char> {
    spec_day_name(day) + " of "@ + spec_month_name(month) + "."@
}

/// Names targets of the date puzzle, for example `1st of Jan.`.
#[derive(Debug, Clone, Copy)]
pub struct DefaultTargetName;

impl DefaultTargetName {
    /// The name of the selected target: its day and month.  Fails when the
    /// selection does not hold exactly a day and a month, or a value is out
    /// of range.
    pub fn create_target_name(&self, selection: &TargetSelection) -> (r: Result<String, String>)
        ensures
            (r is Ok) <==> {
                &&& selection.meaning_selections@.len() == 2
                &&& 1 <= selection.meaning_selections@[0].selected_value <= 31
                &&& 1 <= selection.meaning_selections@[1].selected_value <= 12
            },
            r matches Ok(s) ==> s@ == spec_default_target_name(
                selection.meaning_selections@[0].selected_value as int,
                selection.meaning_selections@[1].selected_value as int,
            ),
    {
        if selection.meaning_selections.len() != 2 {
            let mut e = String::new();
            e.append("Expected exactly 2 meaning selections");
            return Err(e);
        }
        let day = selection.meaning_selections[0].selected_value;
        let month = selection.meaning_selections[1].selected_value;
        let day_name = match construct_day_name(day) {
            Ok(s) => s,
            Err(e) => {
                return Err(e);
            },
        };
        let month_name = match construct_month_name(month) {
            Ok(s) => s,
            Err(e) => {
                return Err(e);
            },
        };
        let mut s = day_name;
        s.append(" of ");
        s.append(month_name.as_str());
        s.append(".");
        Ok(s)
    }
}

/// The target name of the year puzzle: day, month and two year digits.
pub open spec fn spec_year_target_name(day: int, month: int, d1: int, d2: int) -> Seq<char> {
    spec_day_name(day) + " of "@ + spec_month_name(month) + ". "@ + spec_digit_name(d1)
        + spec_digit_name(d2)
}

/// Names targets of the year puzzle, for example `1st of Jan. 26`.
#[derive(Debug, Clone, Copy)]
pub struct YearTargetName;

impl YearTargetName {
    /// The name of the selected target: day, month and the two year digits.
    /// Fails when the selection does not hold exactly those four values, or
    /// a value is out of range.
    pub fn create_target_name(&self, selection: &TargetSelection) -> (r: Result<String, String>)
        ensures
            (r is Ok) <==> {
                &&& selection.meaning_selections@.len() == 4
                &&& 1 <= selection.meaning_selections@[0].selected_value <= 31
                &&& 1 <= selection.meaning_selections@[1].selected_value <= 12
                &&& 0 <= selection.meaning_selections@[2].selected_value <= 9
                &&& 0 <= selection.meaning_selections@[3].selected_value <= 9
            },
            r matches Ok(s) ==> s@ == spec_year_target_name(
                selection.meaning_selections@[0].selected_value as int,
                selection.meaning_selections@[1].selected_value as int,
                selection.meaning_selections@[2].selected_value as int,
                selection.meaning_selections@[3].selected_value as int,
            ),
    {
        if selection.meaning_selections.len() != 4 {
            let mut e = String::new();
            e.append("Expected exactly 4 meaning selections");
            return Err(e);
        }
        let day = selection.meaning_selections[0].selected_value;
        let month = selection.meaning_selections[1].selected_value;
        let d1 = selection.meaning_selections[2].selected_value;
        let d2 = selection.meaning_selections[3].selected_value;
        let day_name = match construct_day_name(day) {
            Ok(s) => s,
            Err(e) => {
                return Err(e);
            },
        };
        let month_name = match construct_month_name(month) {
            Ok(s) => s,
            Err(e) => {
                return Err(e);
            },
        };
        let d1_name = match construct_digit_name(d1) {
            Ok(s) => s,
            Err(e) => {
                return Err(e);
            },
        };
        let d2_name = match construct_digit_name(d2) {
            Ok(s) => s,
            Err(e) => {
                return Err(e);
            },
        };
        let mut s = day_name;
        s.append(" of ");
        s.append(month_name.as_str());
        s.append(". ");
        s.append(d1_name.as_str());
        s.append(d2_name.as_str());
        Ok(s)
    }
}

} // verus!
