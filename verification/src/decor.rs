use vstd::prelude::*;
use vstd::string::StringExecFns;

use crate::config::{Classify, ColorScale, ColorScaleMode, IconOption};
use crate::entry::NodeType;
use crate::strutil::{dec_str, digit_str, ext_spec, extension_of, str_eq, u64_to_string};

verus! {

/// The icon shown for a node: a folder for directories, else a glyph chosen
/// by the file extension, with a generic document glyph as fallback.
pub open spec fn icon_spec(is_dir: bool, name: Seq<char>) -> Seq<char> {
    if is_dir {
        "📁 "@
    } else {
        match ext_spec(name) {
            Some(e) => {
                if e == "txt"@ {
                    "📄 "@
                } else if e == "rs"@ {
                    "🦀 "@
                } else if e == "py"@ {
                    "🐍 "@
                } else if e == "js"@ {
                    "🟨 "@
                } else if e == "html"@ {
                    "🌐 "@
                } else if e == "css"@ {
                    "🎨 "@
                } else if e == "json"@ {
                    "🔧 "@
                } else if e == "md"@ {
                    "📝 "@
                } else if e == "png"@ || e == "jpg"@ || e == "jpeg"@ || e == "gif"@ {
                    "🖼️ "@
                } else if e == "mp3"@ || e == "wav"@ || e == "ogg"@ {
                    "🎵 "@
                } else if e == "mp4"@ || e == "avi"@ || e == "mkv"@ {
                    "🎥 "@
                } else if e == "pdf"@ {
                    "📚 "@
                } else if e == "zip"@ || e == "tar"@ || e == "gz"@ {
                    "🗜️ "@
                } else if e == "exe"@ {
                    "⚙️ "@
                } else {
                    "📄 "@
                }
            },
            None => "📄 "@,
        }
    }
}

/// Chooses the icon glyph for a node by its kind and name.
pub fn get_icon_for_file(is_dir: bool, name: &str) -> (r: &'static str)
    ensures
        r@ == icon_spec(is_dir, name@),
{
    if is_dir {
        return "📁 ";
    }
    match extension_of(name) {
        Some(e) => {
            let s = e.as_str();
            if str_eq(s, "txt") {
                "📄 "
            } else if str_eq(s, "rs") {
                "🦀 "
            } else if str_eq(s, "py") {
                "🐍 "
            } else if str_eq(s, "js") {
                "🟨 "
            } else if str_eq(s, "html") {
                "🌐 "
            } else if str_eq(s, "css") {
                "🎨 "
            } else if str_eq(s, "json") {
                "🔧 "
            } else if str_eq(s, "md") {
                "📝 "
            } else if str_eq(s, "png") || str_eq(s, "jpg") || str_eq(s, "jpeg") || str_eq(
                s,
                "gif",
            ) {
                "🖼️ "
            } else if str_eq(s, "mp3") || str_eq(s, "wav") || str_eq(s, "ogg") {
                "🎵 "
            } else if str_eq(s, "mp4") || str_eq(s, "avi") || str_eq(s, "mkv") {
                "🎥 "
            } else if str_eq(s, "pdf") {
                "📚 "
            } else if str_eq(s, "zip") || str_eq(s, "tar") || str_eq(s, "gz") {
                "🗜️ "
            } else if str_eq(s, "exe") {
                "⚙️ "
            } else {
                "📄 "
            }
        },
        None => "📄 ",
    }
}

/// The icon after the icon policy is applied: always, only on a terminal, or
/// never.
pub open spec fn icon_chosen_spec(icons: IconOption, is_tty: bool, is_dir: bool, name: Seq<char>)
    -> Seq<char> {
    match icons {
        IconOption::Always => icon_spec(is_dir, name),
        IconOption::Auto => if is_tty {
            icon_spec(is_dir, name)
        } else {
            ""@
        },
        IconOption::Never => ""@,
    }
}

/// Applies the icon policy.
pub fn get_icon(is_dir: bool, name: &str, icons: IconOption, is_tty: bool) -> (r: &'static str)
    ensures
        r@ == icon_chosen_spec(icons, is_tty, is_dir, name@),
{
    match icons {
        IconOption::Always => get_icon_for_file(is_dir, name),
        IconOption::Auto => {
            if is_tty {
                get_icon_for_file(is_dir, name)
            } else {
                ""
            }
        },
        IconOption::Never => "",
    }
}

/// The type-classification suffix: `/` for directories, `@` for symlinks,
/// and under the `always` policy also `=` for sockets and `|` for pipes.
pub open spec fn indicator_spec(t: NodeType, classify: Classify) -> Seq<char> {
    match classify {
        Classify::Always => if t is Directory {
            "/"@
        } else if t is Symlink {
            "@"@
        } else if t is Socket {
            "="@
        } else if t is Fifo {
            "|"@
        } else {
            ""@
        },
        Classify::Auto => if t is Directory {
            "/"@
        } else if t is Symlink {
            "@"@
        } else {
            ""@
        },
        Classify::Never => ""@,
    }
}

/// Chooses the classification suffix for a node kind.
pub fn get_type_indicator(t: NodeType, classify: Classify) -> (r: &'static str)
    ensures
        r@ == indicator_spec(t, classify),
{
    match classify {
        Classify::Always => match t {
            NodeType::Directory => "/",
            NodeType::Symlink => "@",
            NodeType::Socket => "=",
            NodeType::Fifo => "|",
            _ => "",
        },
        Classify::Auto => match t {
            NodeType::Directory => "/",
            NodeType::Symlink => "@",
            _ => "",
        },
        Classify::Never => "",
    }
}

/// A file's age: now less the modification time, and zero for a
/// modification time in the future.
pub open spec fn age_of(now: int, mtime: int) -> int {
    if now >= mtime {
        now - mtime
    } else {
        0
    }
}

/// The age ceiling of the gradient: one year of seconds.
pub open spec fn age_ceiling() -> int {
    31536000
}

/// The size ceiling of the gradient: one gigabyte.
pub open spec fn size_ceiling() -> int {
    1073741824
}

/// The fixed four-bucket color for an age: green under a day, yellow under
/// a week, orange under a month, red beyond.
pub open spec fn fixed_age_color(age: int) -> Seq<char> {
    if age < 86400 {
        "\u{1b}[38;5;46m"@
    } else if age < 604800 {
        "\u{1b}[38;5;226m"@
    } else if age < 2592000 {
        "\u{1b}[38;5;208m"@
    } else {
        "\u{1b}[38;5;196m"@
    }
}

/// The fixed four-bucket color for a size: green under a kilobyte, yellow
/// under a megabyte, orange under a hundred megabytes, red beyond.
pub open spec fn fixed_size_color(size: int) -> Seq<char> {
    if size < 1024 {
        "\u{1b}[38;5;46m"@
    } else if size < 1048576 {
        "\u{1b}[38;5;226m"@
    } else if size < 104857600 {
        "\u{1b}[38;5;208m"@
    } else {
        "\u{1b}[38;5;196m"@
    }
}

/// The red channel of the gradient: the value clamped to the ceiling and
/// mapped linearly, full red at and beyond half the ceiling.
pub open spec fn gradient_red(v: int, ceiling: int) -> int {
    let a = if v > ceiling {
        ceiling
    } else {
        v
    };
    if 2 * a <= ceiling {
        (510 * a) / ceiling
    } else {
        255
    }
}

/// The green channel of the gradient: full green up to half the ceiling,
/// then falling linearly to zero at the ceiling.
pub open spec fn gradient_green(v: int, ceiling: int) -> int {
    let a = if v > ceiling {
        ceiling
    } else {
        v
    };
    if 2 * a <= ceiling {
        255
    } else {
        (510 * (ceiling - a)) / ceiling
    }
}

/// The truecolor escape of the gradient from green (small values) to red
/// (values at and beyond the ceiling); the blue channel is always zero.
pub open spec fn gradient_color_spec(v: int, ceiling: int) -> Seq<char> {
    "\u{1b}[38;2;"@ + dec_str(gradient_red(v, ceiling)) + ";"@ + dec_str(gradient_green(v, ceiling))
        + ";"@ + dec_str(0) + "m"@
}

/// Renders the gradient escape for a value against a ceiling.
fn gradient_color(v: u64, ceiling: u64) -> (r: String)
    requires
        1 <= ceiling <= 1073741824,
    ensures
        r@ == gradient_color_spec(v as int, ceiling as int),
{
    let a: u64 = if v > ceiling {
        ceiling
    } else {
        v
    };
    let rr: u64;
    let gg: u64;
    if 2 * a <= ceiling {
        rr = (510 * a) / ceiling;
        gg = 255;
    } else {
        rr = 255;
        gg = (510 * (ceiling - a)) / ceiling;
    }
    proof {
        assert(rr == gradient_red(v as int, ceiling as int));
        assert(gg == gradient_green(v as int, ceiling as int));
    }
    let mut out = String::from_str("\u{1b}[38;2;");
    let rs = u64_to_string(rr);
    out.append(rs.as_str());
    out.append(";");
    let gs = u64_to_string(gg);
    out.append(gs.as_str());
    out.append(";");
    out.append(digit_str(0));
    out.append("m");
    proof {
        assert(out@ =~= gradient_color_spec(v as int, ceiling as int));
    }
    out
}

/// The age color under the chosen sub-mode.
pub open spec fn age_color_spec(age: int, mode: ColorScaleMode) -> Seq<char> {
    match mode {
        ColorScaleMode::Fixed => fixed_age_color(age),
        ColorScaleMode::Gradient => gradient_color_spec(age, age_ceiling()),
    }
}

/// The size color under the chosen sub-mode.
pub open spec fn size_color_spec(size: int, mode: ColorScaleMode) -> Seq<char> {
    match mode {
        ColorScaleMode::Fixed => fixed_size_color(size),
        ColorScaleMode::Gradient => gradient_color_spec(size, size_ceiling()),
    }
}

/// Renders the age color.
pub fn get_color_for_age(age: u64, mode: ColorScaleMode) -> (r: String)
    ensures
        r@ == age_color_spec(age as int, mode),
{
    match mode {
        ColorScaleMode::Fixed => {
            if age < 86400 {
                String::from_str("\u{1b}[38;5;46m")
            } else if age < 604800 {
                String::from_str("\u{1b}[38;5;226m")
            } else if age < 2592000 {
                String::from_str("\u{1b}[38;5;208m")
            } else {
                String::from_str("\u{1b}[38;5;196m")
            }
        },
        ColorScaleMode::Gradient => gradient_color(age, 31536000),
    }
}

/// Renders the size color.
pub fn get_color_for_size(size: u64, mode: ColorScaleMode) -> (r: String)
    ensures
        r@ == size_color_spec(size as int, mode),
{
    match mode {
        ColorScaleMode::Fixed => {
            if size < 1024 {
                String::from_str("\u{1b}[38;5;46m")
            } else if size < 1048576 {
                String::from_str("\u{1b}[38;5;226m")
            } else if size < 104857600 {
                String::from_str("\u{1b}[38;5;208m")
            } else {
                String::from_str("\u{1b}[38;5;196m")
            }
        },
        ColorScaleMode::Gradient => gradient_color(size, 1073741824),
    }
}

/// The color-scale escape of an entry: nothing without a configured scale;
/// the age color, the size color, or the two escapes concatenated as one
/// combined sequence.
pub open spec fn scale_color_spec(
    scale: Option<ColorScale>,
    mode: ColorScaleMode,
    age: int,
    size: int,
) -> Seq<char> {
    match scale {
        Some(ColorScale::Age) => age_color_spec(age, mode),
        Some(ColorScale::Size) => size_color_spec(size, mode),
        Some(ColorScale::All) => age_color_spec(age, mode) + size_color_spec(size, mode),
        None => Seq::empty(),
    }
}

/// The age of an entry modified at `mtime`, seen at `now`.
pub(crate) fn age_from(now: i64, mtime: i64) -> (r: u64)
    ensures
        r as int == age_of(now as int, mtime as int),
{
    if now >= mtime {
        ((now as i128) - (mtime as i128)) as u64
    } else {
        0
    }
}

/// Renders the color-scale escape for an entry's age and size.
pub fn get_color_for_scale(
    scale: Option<ColorScale>,
    mode: ColorScaleMode,
    now: i64,
    mtime: i64,
    size: u64,
) -> (r: String)
    ensures
        r@ == scale_color_spec(scale, mode, age_of(now as int, mtime as int), size as int),
{
    match scale {
        Some(ColorScale::Age) => get_color_for_age(age_from(now, mtime), mode),
        Some(ColorScale::Size) => get_color_for_size(size, mode),
        Some(ColorScale::All) => {
            let mut out = get_color_for_age(age_from(now, mtime), mode);
            let sc = get_color_for_size(size, mode);
            out.append(sc.as_str());
            proof {
                assert(out@ =~= scale_color_spec(
                    scale,
                    mode,
                    age_of(now as int, mtime as int),
                    size as int,
                ));
            }
            out
        },
        None => String::new(),
    }
}

/// Whether permission bits grant execution to anyone: any of the three
/// execute bits is set.
pub fn is_executable(mode: u32) -> (r: bool)
    ensures
        r == (mode & 0o111 != 0),
{
    mode & 0o111 != 0
}

} // verus!
