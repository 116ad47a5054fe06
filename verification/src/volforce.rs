//! Clear lamps, grades, difficulty labels and the chart data that Volforce
//! is computed from.
use vstd::prelude::*;
use crate::models::{MusicEntry, MusicRecord};
use std::collections::HashMap;
use vstd::string::StringExecFns;

verus! {

broadcast use vstd::std_specs::hash::group_hash_axioms;

/// The clear coefficient of a clear lamp, in hundredths.
pub open spec fn clear_coefficient(clear: u8) -> u32 {
    if clear == 1 {
        50
    } else if clear == 2 {
        100
    } else if clear == 3 {
        102
    } else if clear == 4 {
        104
    } else if clear == 5 {
        106
    } else if clear == 6 {
        110
    } else {
        0
    }
}

/// The grade coefficient of a grade, in hundredths.
pub open spec fn grade_coefficient(grade: u8) -> u32 {
    if grade == 1 {
        80
    } else if grade == 2 {
        82
    } else if grade == 3 {
        85
    } else if grade == 4 {
        88
    } else if grade == 5 {
        91
    } else if grade == 6 {
        94
    } else if grade == 7 {
        97
    } else if grade == 8 {
        100
    } else if grade == 9 {
        102
    } else if grade == 10 {
        105
    } else {
        0
    }
}

/// The clear coefficient of a clear lamp, in hundredths (1.02 is 102).
pub fn clear_factor(clear: u8) -> (r: u32)
    ensures
        r == clear_coefficient(clear),
{
    match clear {
        1 => 50,
        2 => 100,
        3 => 102,
        4 => 104,
        5 => 106,
        6 => 110,
        _ => 0,
    }
}

/// The grade coefficient of a grade, in hundredths (0.97 is 97).
pub fn grade_factor(grade: u8) -> (r: u32)
    ensures
        r == grade_coefficient(grade),
{
    match grade {
        1 => 80,
        2 => 82,
        3 => 85,
        4 => 88,
        5 => 91,
        6 => 94,
        7 => 97,
        8 => 100,
        9 => 102,
        10 => 105,
        _ => 0,
    }
}

/// The better of two clear lamps: `right` when its coefficient is larger,
/// else `left`.
pub open spec fn better_lamp(left: u8, right: u8) -> u8 {
    if clear_coefficient(right) > clear_coefficient(left) {
        right
    } else {
        left
    }
}

pub fn better_clear(left: u8, right: u8) -> (r: u8)
    ensures
        r == better_lamp(left, right),
{
    if clear_factor(right) > clear_factor(left) {
        right
    } else {
        left
    }
}

/// The better lamp has the larger of the two coefficients, and is one of
/// the two lamps; keeping the better lamp does not depend on the order in
/// which two records come, as far as the coefficient goes.
pub proof fn better_clear_keeps_the_larger_coefficient(a: u8, b: u8)
    ensures
        better_lamp(a, b) == a || better_lamp(a, b) == b,
        clear_coefficient(better_lamp(a, b)) >= clear_coefficient(a),
        clear_coefficient(better_lamp(a, b)) >= clear_coefficient(b),
        clear_coefficient(better_lamp(a, b)) == clear_coefficient(better_lamp(b, a)),
{
}

/// The label of a chart type; the fourth chart's label depends on the
/// song's `inf_ver`, 2 when it has none.
pub open spec fn label_of(chart_type: u8, inf_ver: Option<u8>) -> Seq<char> {
    if chart_type == 0 {
        "NOV"@
    } else if chart_type == 1 {
        "ADV"@
    } else if chart_type == 2 {
        "EXH"@
    } else if chart_type == 3 {
        let v = match inf_ver {
            Some(x) => x,
            None => 2,
        };
        if v == 3 {
            "GRV"@
        } else if v == 4 {
            "HVN"@
        } else if v == 5 {
            "VVD"@
        } else if v == 6 {
            "XCD"@
        } else {
            "INF"@
        }
    } else if chart_type == 4 {
        "MXM"@
    } else if chart_type == 5 {
        "ULT"@
    } else {
        "UNK"@
    }
}

pub fn difficulty_label(chart_type: u8, inf_ver: Option<u8>) -> (r: String)
    ensures
        r@ == label_of(chart_type, inf_ver),
{
    let s = match chart_type {
        0 => "NOV",
        1 => "ADV",
        2 => "EXH",
        3 => {
            let v = match inf_ver {
                Some(x) => x,
                None => 2,
            };
            match v {
                2 => "INF",
                3 => "GRV",
                4 => "HVN",
                5 => "VVD",
                6 => "XCD",
                _ => "INF",
            }
        },
        4 => "MXM",
        5 => "ULT",
        _ => "UNK",
    };
    String::from_str(s)
}

/// The name of a clear lamp.
pub open spec fn lamp_name(clear: u8) -> Seq<char> {
    if clear == 1 {
        "C"@
    } else if clear == 2 {
        "EC"@
    } else if clear == 3 {
        "HC"@
    } else if clear == 4 {
        "MC"@
    } else if clear == 5 {
        "UC"@
    } else if clear == 6 {
        "PUC"@
    } else {
        "ND"@
    }
}

pub fn clear_lamp(clear: u8) -> (r: String)
    ensures
        r@ == lamp_name(clear),
{
    let s = match clear {
        1 => "C",
        2 => "EC",
        3 => "HC",
        4 => "MC",
        5 => "UC",
        6 => "PUC",
        _ => "ND",
    };
    String::from_str(s)
}

/// The level of the record's chart in the music database, if the song is
/// there and gives that chart a level.
pub open spec fn level_of(record: MusicRecord, music_db: Map<u32, MusicEntry>) -> Option<u32> {
    if music_db.contains_key(record.mid) {
        let levels = music_db[record.mid].levels@;
        if (record.chart_type as int) < levels.len() {
            levels[record.chart_type as int]
        } else {
            None
        }
    } else {
        None
    }
}

pub fn chart_level(record: &MusicRecord, music_db: &HashMap<u32, MusicEntry>) -> (r: Option<u32>)
    ensures
        r == level_of(*record, music_db@),
{
    match music_db.get(&record.mid) {
        None => None,
        Some(music) => {
            let k = record.chart_type as usize;
            if k < music.levels.len() {
                music.levels[k]
            } else {
                None
            }
        },
    }
}

} // verus!
