//! Where recorded events are written: a file of the session's day in the output
//! directory, or the output file itself.

use vstd::prelude::*;
use crate::logs::{
    portable_path, path_components, last_name, path_file_name, path_parent, bare_file_name,
};
use crate::replay::{RelogFormat, last_component_is, path_ends_with};
use crate::tls::{single_component, ends_with, path_join};
use crate::text::chars_of;
use crate::time::{date_exists, zero_padded};
use crate::ansi::decimal;

verus! {

/// How chrono writes a year with `%Y`: four digits, with zeros in front, from 0 to
/// 9999; otherwise its sign and at least four digits.
pub open spec fn year_text(year: int) -> Seq<char> {
    if 0 <= year <= 9999 {
        zero_padded(year as nat, 4)
    } else if year < 0 {
        seq!['-'] + zero_padded((-year) as nat, 4)
    } else {
        seq!['+'] + zero_padded(year as nat, 4)
    }
}

/// How chrono writes a date with `%Y-%m-%d`: the year, then the month and the
/// day in two digits each.
pub open spec fn ymd_text(year: i32, month: u32, day: u32) -> Seq<char> {
    year_text(year as int) + seq!['-'] + zero_padded(month as nat, 2) + seq!['-'] + zero_padded(
        day as nat,
        2,
    )
}

/// Whether `c` is a character that a written date holds: a digit, `-` or `+`.
pub open spec fn date_char(c: char) -> bool {
    ('0' <= c && c <= '9') || c == '-' || c == '+'
}

/// The digits of a number are digits.
proof fn lemma_decimal_digits(n: nat)
    ensures
        forall|i: int| 0 <= i < decimal(n).len() ==> date_char(#[trigger] decimal(n)[i]),
    decreases n,
{
    if n >= 10 {
        lemma_decimal_digits(n / 10);
        let d = decimal(n / 10);
        assert forall|i: int| 0 <= i < decimal(n).len() implies date_char(#[trigger] decimal(n)[i]) by {
            if i < d.len() {
                assert(decimal(n)[i] == d[i]);
            }
        }
    }
}

/// A padded number holds digits alone.
proof fn lemma_padded_digits(n: nat, width: nat)
    ensures
        forall|i: int|
            0 <= i < zero_padded(n, width).len() ==> date_char(#[trigger] zero_padded(n, width)[i]),
{
    lemma_decimal_digits(n);
    let d = decimal(n);
    if d.len() < width {
        let z = Seq::new((width - d.len()) as nat, |i: int| '0');
        assert forall|i: int| 0 <= i < zero_padded(n, width).len() implies date_char(
            #[trigger] zero_padded(n, width)[i],
        ) by {
            if i < z.len() {
                assert(zero_padded(n, width)[i] == z[i]);
            } else {
                assert(zero_padded(n, width)[i] == d[i - z.len()]);
            }
        }
    }
}

/// A date's text holds no separator and no `:`.
proof fn lemma_ymd_text_single(year: i32, month: u32, day: u32)
    ensures
        single_component(ymd_text(year, month, day)),
{
    let y = year as int;
    lemma_padded_digits(month as nat, 2);
    lemma_padded_digits(day as nat, 2);
    let yt = year_text(y);
    if 0 <= y <= 9999 {
        lemma_padded_digits(y as nat, 4);
    } else if y < 0 {
        lemma_padded_digits((-y) as nat, 4);
        let z = zero_padded((-y) as nat, 4);
        assert forall|i: int| 0 <= i < yt.len() implies date_char(#[trigger] yt[i]) by {
            if i > 0 {
                assert(yt[i] == z[i - 1]);
            }
        }
    } else {
        lemma_padded_digits(y as nat, 4);
        let z = zero_padded(y as nat, 4);
        assert forall|i: int| 0 <= i < yt.len() implies date_char(#[trigger] yt[i]) by {
            if i > 0 {
                assert(yt[i] == z[i - 1]);
            }
        }
    }
    assert(forall|i: int| 0 <= i < yt.len() ==> date_char(#[trigger] yt[i]));
    let m = zero_padded(month as nat, 2);
    let d = zero_padded(day as nat, 2);
    let t = ymd_text(year, month, day);
    assert(t == yt + seq!['-'] + m + seq!['-'] + d);
    assert forall|i: int| 0 <= i < t.len() implies date_char(#[trigger] t[i]) by {
        let a = yt.len() as int;
        let b = a + 1 + m.len();
        if i < a {
            assert(t[i] == yt[i]);
        } else if i == a {
            assert(t[i] == '-');
        } else if i < b {
            assert(t[i] == m[i - a - 1]);
        } else if i == b {
            assert(t[i] == '-');
        } else {
            assert(t[i] == d[i - b - 1]);
        }
    }
    assert forall|i: int| 0 <= i < t.len() implies t[i] != '/' && t[i] != '\\' && t[i] != ':' by {
        assert(date_char(t[i]));
    }
}

/// Calls `chrono::NaiveDate::from_ymd_opt` and formats the date with `%Y-%m-%d`.
/// Trusted: there is a text exactly where the date exists (`date_exists`: chrono
/// checks the years it holds, the month and the day of that month), and it is
/// `ymd_text` of the three numbers: the year in four digits with zeros in front
/// (with its sign where it is outside 0 to 9999), then the month and the day in
/// two digits each, joined by `-`.
#[verifier::external_body]
fn session_date_text(year: i32, month: u32, day: u32) -> (r: Option<String>)
    ensures
        match r {
            Some(s) => s@ == ymd_text(year, month, day),
            None => true,
        },
        r is Some <==> date_exists(year, month, day),
{
    chrono::NaiveDate::from_ymd_opt(year, month, day).map(|d| d.format("%Y-%m-%d").to_string())
}

/// The name of the file of binary events of the session day `date`.
pub open spec fn binlog_file_name(date: Seq<char>) -> Seq<char> {
    "solar_sonar_"@ + date + ".binlog"@
}

/// The name of the file of recorded events of the session day `date` in the
/// format `format`: the extension, which begins with a dot, follows a dot.
pub open spec fn relog_file_name(date: Seq<char>, format: RelogFormat) -> Seq<char> {
    "solar_sonar_"@ + date + "."@ + match format {
        RelogFormat::Binary => ".bin.log"@,
        RelogFormat::Ron => ".ron.log"@,
    }
}

/// The file that the binary events of the session day `year`-`month`-`day` go to:
/// `output` itself where its last component is `.binlog`, else the file of that
/// day in the directory `output`. `None` exactly where the date does not exist.
pub fn binlog_file_path(output: &str, year: i32, month: u32, day: u32) -> (r: Option<String>)
    ensures
        r is Some <==> date_exists(year, month, day),
        portable_path(output@) && last_component_is(path_components(output@), ".binlog"@) ==> (
        r matches Some(p) ==> p@ == output@),
        r matches Some(p) ==> p@ == output@ || ends_with(
            p@,
            binlog_file_name(ymd_text(year, month, day)),
        ),
        portable_path(output@) && !last_component_is(path_components(output@), ".binlog"@) ==> (
        r matches Some(p) ==> ends_with(p@, binlog_file_name(ymd_text(year, month, day)))),
{
    let date = match session_date_text(year, month, day) {
        Some(d) => d,
        None => {
            return None;
        },
    };
    proof {
        reveal_strlit(".binlog");
        reveal_strlit(".");
        reveal_strlit("..");
        assert(".binlog"@ != "."@ && ".binlog"@ != ".."@) by {
            assert(".binlog"@.len() != "."@.len() && ".binlog"@.len() != ".."@.len());
        }
        assert(bare_file_name(".binlog"@));
    }
    if path_ends_with(output, ".binlog") {
        Some(output.to_string())
    } else {
        let mut name = "solar_sonar_".to_string();
        name.append(date.as_str());
        name.append(".binlog");
        proof {
            lemma_ymd_text_single(year, month, day);
            lemma_file_name_single(date@, ".binlog"@);
        }
        Some(path_join(output, name.as_str()))
    }
}

/// A file name made of `solar_sonar_`, a text with no separator and a fixed end
/// with none is a single component that begins with two letters.
proof fn lemma_file_name_single(date: Seq<char>, end: Seq<char>)
    requires
        single_component(date),
        !end.contains('/') && !end.contains('\\') && !end.contains(':'),
    ensures
        single_component("solar_sonar_"@ + date + end),
        ("solar_sonar_"@ + date + end).len() >= 2,
        crate::tls::ascii_letter(("solar_sonar_"@ + date + end)[0]),
        crate::tls::ascii_letter(("solar_sonar_"@ + date + end)[1]),
{
    reveal_strlit("solar_sonar_");
    let pre = "solar_sonar_"@;
    let f = pre + date + end;
    assert forall|i: int| 0 <= i < f.len() implies f[i] != '/' && f[i] != '\\' && f[i] != ':' by {
        if i < pre.len() {
            assert(f[i] == pre[i]);
        } else if i < pre.len() + date.len() {
            assert(f[i] == date[i - pre.len()]);
            assert(date.contains(date[i - pre.len()]));
        } else {
            assert(f[i] == end[i - pre.len() - date.len()]);
            assert(end.contains(end[i - pre.len() - date.len()]));
        }
    }
}

/// The output directory and the format of recorded events, for the output path
/// `output`: where its file name is a pattern (begins with `*`), the directory
/// that holds it, and the format that the pattern names (RON for `*.ron.log`,
/// binary otherwise); else `output` itself, in binary.
pub fn relog_output(output: &str) -> (r: (String, RelogFormat))
    ensures
        portable_path(output@) ==> r.1 == (if last_name(path_components(output@)) == Some(
            "*.ron.log"@,
        ) {
            RelogFormat::Ron
        } else {
            RelogFormat::Binary
        }),
        portable_path(output@) ==> match last_name(path_components(output@)) {
            Some(n) => if n.len() > 0 && n[0] == '*' {
                r.0@.len() <= output@.len() && r.0@ == output@.take(r.0@.len() as int)
                    && path_components(r.0@) == path_components(output@).drop_last()
            } else {
                r.0@ == output@
            },
            None => r.0@ == output@,
        },
{
    let file_name = path_file_name(output);
    let format = match &file_name {
        Some(f) => RelogFormat::from_filename(Some(f.as_str())),
        None => RelogFormat::from_filename(None),
    };
    proof {
        reveal_strlit("*.ron.log");
    }
    let pattern = match &file_name {
        Some(f) => {
            let cs = chars_of(f.as_str());
            cs.len() > 0 && cs[0] == '*'
        },
        None => false,
    };
    if pattern {
        match path_parent(output) {
            Some(dir) => (dir, format),
            None => (output.to_string(), format),
        }
    } else {
        (output.to_string(), format)
    }
}

/// The file that the recorded events of the session day `year`-`month`-`day` go
/// to in the format `format`: `output` itself where its last component is
/// `.log`, else the file of that day in the directory `output`. `None` exactly
/// where the date does not exist.
pub fn relog_file_path(output: &str, format: RelogFormat, year: i32, month: u32, day: u32) -> (r:
    Option<String>)
    ensures
        r is Some <==> date_exists(year, month, day),
        portable_path(output@) && last_component_is(path_components(output@), ".log"@) ==> (
        r matches Some(p) ==> p@ == output@),
        r matches Some(p) ==> p@ == output@ || ends_with(
            p@,
            relog_file_name(ymd_text(year, month, day), format),
        ),
        portable_path(output@) && !last_component_is(path_components(output@), ".log"@) ==> (
        r matches Some(p) ==> ends_with(
            p@,
            relog_file_name(ymd_text(year, month, day), format),
        )),
{
    let date = match session_date_text(year, month, day) {
        Some(d) => d,
        None => {
            return None;
        },
    };
    proof {
        reveal_strlit(".log");
        reveal_strlit(".");
        reveal_strlit("..");
        assert(".log"@ != "."@ && ".log"@ != ".."@) by {
            assert(".log"@.len() != "."@.len() && ".log"@.len() != ".."@.len());
        }
        assert(bare_file_name(".log"@));
    }
    if path_ends_with(output, ".log") {
        Some(output.to_string())
    } else {
        let ext = format.ext();
        let mut name = "solar_sonar_".to_string();
        name.append(date.as_str());
        name.append(".");
        name.append(ext);
        proof {
            reveal_strlit(".bin.log");
            reveal_strlit(".ron.log");
            let end = "."@ + ext@;
            assert(name@ == "solar_sonar_"@ + date@ + end);
            assert forall|i: int| 0 <= i < end.len() implies end[i] != '/' && end[i] != '\\'
                && end[i] != ':' by {
                if i == 0 {
                    assert(end[i] == "."@[0]);
                } else {
                    assert(end[i] == ext@[i - 1]);
                }
            }
            lemma_ymd_text_single(year, month, day);
            lemma_file_name_single(date@, end);
        }
        Some(path_join(output, name.as_str()))
    }
}

} // verus!
