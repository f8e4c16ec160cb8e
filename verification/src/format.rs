use vstd::prelude::*;
use vstd::string::StringExecFns;

use crate::entry::NodeType;
use crate::strutil::{
    dec_str, digit_char, digit_str, quote_mark, seq_contains_char, str_contains_char,
    starts_with_char, u64_to_string,
};

verus! {

/// The divisor belonging to the unit a size is shown in: the largest power
/// of 1024 not above the size (capped at the petabyte step).
pub open spec fn size_divisor(size: int) -> int {
    if size < 1024 {
        1
    } else if size < 1048576 {
        1024
    } else if size < 1073741824 {
        1048576
    } else if size < 1099511627776 {
        1073741824
    } else if size < 1125899906842624 {
        1099511627776
    } else {
        1125899906842624
    }
}

/// The unit suffix a size is shown with.
pub open spec fn size_unit(size: int) -> Seq<char> {
    if size < 1024 {
        "B"@
    } else if size < 1048576 {
        "KB"@
    } else if size < 1073741824 {
        "MB"@
    } else if size < 1099511627776 {
        "GB"@
    } else if size < 1125899906842624 {
        "TB"@
    } else {
        "PB"@
    }
}

/// `num / d` rounded to the nearest integer, ties to the even neighbour.
pub open spec fn round_half_even(num: int, d: int) -> int {
    let q = num / d;
    let r = num % d;
    if 2 * r < d {
        q
    } else if 2 * r > d {
        q + 1
    } else if q % 2 == 0 {
        q
    } else {
        q + 1
    }
}

/// A byte count rendered as a number with two decimals and a unit chosen so
/// that the number stays below 1024 (`0.00 B`, `1.50 KB`, `1.00 GB`).
pub open spec fn format_size_spec(size: int) -> Seq<char> {
    let d = size_divisor(size);
    let h = round_half_even(size * 100, d);
    dec_str(h / 100) + "."@ + seq![digit_char(h % 100 / 10), digit_char(h % 100 % 10)] + " "@
        + size_unit(size)
}

/// Renders a byte count per [`format_size_spec`].
pub fn format_size(size: u64) -> (r: String)
    ensures
        r@ == format_size_spec(size as int),
{
    let d: u64;
    let unit: &str;
    if size < 1024 {
        d = 1;
        unit = "B";
    } else if size < 1048576 {
        d = 1024;
        unit = "KB";
    } else if size < 1073741824 {
        d = 1048576;
        unit = "MB";
    } else if size < 1099511627776 {
        d = 1073741824;
        unit = "GB";
    } else if size < 1125899906842624 {
        d = 1099511627776;
        unit = "TB";
    } else {
        d = 1125899906842624;
        unit = "PB";
    }
    let num: u128 = (size as u128) * 100;
    let dd: u128 = d as u128;
    let q: u128 = num / dd;
    let rm: u128 = num % dd;
    proof {
        assert(q <= num) by (nonlinear_arith)
            requires
                q == num / dd,
                dd >= 1,
                num >= 0,
        ;
    }
    let h: u128 = if 2 * rm < dd {
        q
    } else if 2 * rm > dd {
        q + 1
    } else if q % 2 == 0 {
        q
    } else {
        q + 1
    };
    proof {
        assert(h == round_half_even(size as int * 100, d as int));
        assert(h / 100 <= size) by (nonlinear_arith)
            requires
                h <= num + 1,
                num == (size as int) * 100,
                size >= 0,
        ;
    }
    let whole: u64 = (h / 100) as u64;
    let f: u64 = (h % 100) as u64;
    let mut out = u64_to_string(whole);
    out.append(".");
    out.append(digit_str(f / 10));
    out.append(digit_str(f % 10));
    out.append(" ");
    out.append(unit);
    proof {
        assert(out@ =~= format_size_spec(size as int));
    }
    out
}

/// A name wrapped in double quotes when quoting is on and the name holds a
/// space; otherwise the name as it is.
pub open spec fn quoted_name_spec(name: Seq<char>, quote: bool) -> Seq<char> {
    if quote && seq_contains_char(name, ' ') {
        quote_mark() + name + quote_mark()
    } else {
        name
    }
}

/// Renders a name per [`quoted_name_spec`].
pub fn format_file_name(name: &str, quote: bool) -> (r: String)
    ensures
        r@ == quoted_name_spec(name@, quote),
{
    if quote && str_contains_char(name, ' ') {
        let mut out = String::from_str("\"");
        out.append(name);
        out.append("\"");
        proof {
            assert(out@ =~= quoted_name_spec(name@, quote));
        }
        out
    } else {
        String::from_str(name)
    }
}

/// The label shown for a node kind in the long listing.
pub open spec fn type_str_spec(t: NodeType) -> Seq<char> {
    if t is Directory {
        "Directory"@
    } else if t is Symlink {
        "Symlink"@
    } else if t is File {
        "File"@
    } else {
        "Other"@
    }
}

/// Renders the type label per [`type_str_spec`].
pub fn get_file_type_str(t: NodeType) -> (r: &'static str)
    ensures
        r@ == type_str_spec(t),
{
    match t {
        NodeType::Directory => "Directory",
        NodeType::Symlink => "Symlink",
        NodeType::File => "File",
        _ => "Other",
    }
}

/// The absolute form of a display path: the path itself when absolute, else
/// the working directory, a separator and the path.
pub open spec fn absolute_of(path: Seq<char>, cwd: Seq<char>) -> Seq<char> {
    if path.len() > 0 && path[0] == '/' {
        path
    } else {
        cwd + "/"@ + path
    }
}

/// A name wrapped in a terminal hyperlink escape pointing at the file-scheme
/// absolute path, when hyperlinks are on; the bare name otherwise.
pub open spec fn hyperlink_spec(path: Seq<char>, name: Seq<char>, on: bool, cwd: Seq<char>)
    -> Seq<char> {
    if on {
        "\u{1b}]8;;file://"@ + absolute_of(path, cwd) + "\u{1b}\\"@ + name + "\u{1b}]8;;\u{1b}\\"@
    } else {
        name
    }
}

/// Renders a (possibly quoted) name per [`hyperlink_spec`]. Relative paths
/// are resolved against the given working directory at render time.
pub fn format_hyperlink(path: &str, name: &str, on: bool, cwd: &str) -> (r: String)
    ensures
        r@ == hyperlink_spec(path@, name@, on, cwd@),
{
    if on {
        let mut out = String::from_str("\u{1b}]8;;file://");
        if starts_with_char(path, '/') {
            out.append(path);
        } else {
            out.append(cwd);
            out.append("/");
            out.append(path);
        }
        out.append("\u{1b}\\");
        out.append(name);
        out.append("\u{1b}]8;;\u{1b}\\");
        proof {
            assert(out@ =~= hyperlink_spec(path@, name@, on, cwd@));
        }
        out
    } else {
        String::from_str(name)
    }
}

/// Relies on chrono: `DateTime::from_timestamp` turns a unix timestamp into
/// a calendar time, `with_timezone(&Local)` moves it to the machine's local
/// time zone and `format("%Y-%m-%d %H:%M:%S")` renders it. The result
/// depends on the machine's time zone, so nothing is stated of it.
#[verifier::external_body]
pub(crate) fn format_timestamp(secs: i64) -> String {
    match chrono::DateTime::from_timestamp(secs, 0) {
        Some(t) => t.with_timezone(&chrono::Local).format("%Y-%m-%d %H:%M:%S").to_string(),
        None => String::new(),
    }
}

} // verus!
