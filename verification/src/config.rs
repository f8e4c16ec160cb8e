use vstd::prelude::*;

verus! {

/// The three sort keys: name ascending, size descending, modification time
/// descending.
#[derive(Clone, Copy, PartialEq, Eq, Structural, Debug)]
pub enum SortBy {
    Name,
    Size,
    ModTime,
}

/// The four layouts.
#[derive(Clone, Copy, PartialEq, Eq, Structural, Debug)]
pub enum DisplayMode {
    OneLine,
    Long,
    Grid,
    Tree,
}

/// Whether a type-classification suffix is appended.
#[derive(Clone, Copy, PartialEq, Eq, Structural, Debug)]
pub enum Classify {
    Always,
    Auto,
    Never,
}

/// Whether the summary lines are colored.
#[derive(Clone, Copy, PartialEq, Eq, Structural, Debug)]
pub enum ColorOption {
    Always,
    Auto,
    Never,
}

/// Which dimension drives the color scale.
#[derive(Clone, Copy, PartialEq, Eq, Structural, Debug)]
pub enum ColorScale {
    All,
    Age,
    Size,
}

/// Fixed buckets or a continuous gradient.
#[derive(Clone, Copy, PartialEq, Eq, Structural, Debug)]
pub enum ColorScaleMode {
    Fixed,
    Gradient,
}

/// Whether icons are shown.
#[derive(Clone, Copy, PartialEq, Eq, Structural, Debug)]
pub enum IconOption {
    Always,
    Auto,
    Never,
}

/// How display paths are resolved: canonicalized, symlink targets followed,
/// or left as given.
#[derive(Clone, Copy, PartialEq, Eq, Structural, Debug)]
pub enum AbsolutePathOption {
    On,
    Follow,
    Off,
}

/// Every policy knob the pipeline reads, produced once from the arguments
/// and immutable afterwards.
pub struct Config {
    pub max_depth: Option<usize>,
    pub show_hidden: bool,
    pub root_path: String,
    pub sort_by: SortBy,
    pub pattern: Option<String>,
    pub show_size: bool,
    pub display_mode: DisplayMode,
    pub classify: Classify,
    pub dereference: bool,
    pub color: ColorOption,
    pub color_scale: Option<ColorScale>,
    pub color_scale_mode: ColorScaleMode,
    pub icons: IconOption,
    pub quote_names: bool,
    pub hyperlink: bool,
    pub absolute_path: AbsolutePathOption,
    pub screen_width: Option<usize>,
    pub sort_across: bool,
    pub recurse: bool,
}

/// Mathematical image of a [`Config`].
pub struct ConfigV {
    pub max_depth: Option<int>,
    pub show_hidden: bool,
    pub root_path: Seq<char>,
    pub sort_by: SortBy,
    pub pattern: Option<Seq<char>>,
    pub show_size: bool,
    pub display_mode: DisplayMode,
    pub classify: Classify,
    pub dereference: bool,
    pub color: ColorOption,
    pub color_scale: Option<ColorScale>,
    pub color_scale_mode: ColorScaleMode,
    pub icons: IconOption,
    pub quote_names: bool,
    pub hyperlink: bool,
    pub absolute_path: AbsolutePathOption,
    pub screen_width: Option<int>,
    pub sort_across: bool,
    pub recurse: bool,
}

impl View for Config {
    type V = ConfigV;

    open spec fn view(&self) -> ConfigV {
        ConfigV {
            max_depth: match self.max_depth {
                Some(d) => Some(d as int),
                None => None,
            },
            show_hidden: self.show_hidden,
            root_path: self.root_path@,
            sort_by: self.sort_by,
            pattern: match self.pattern {
                Some(p) => Some(p@),
                None => None,
            },
            show_size: self.show_size,
            display_mode: self.display_mode,
            classify: self.classify,
            dereference: self.dereference,
            color: self.color,
            color_scale: self.color_scale,
            color_scale_mode: self.color_scale_mode,
            icons: self.icons,
            quote_names: self.quote_names,
            hyperlink: self.hyperlink,
            absolute_path: self.absolute_path,
            screen_width: match self.screen_width {
                Some(w) => Some(w as int),
                None => None,
            },
            sort_across: self.sort_across,
            recurse: self.recurse,
        }
    }
}

/// What a run of the renderers learns from the terminal and the clock, read
/// once at the edge and handed in as plain values.
pub struct RenderCtx {
    pub is_tty: bool,
    pub now: i64,
    pub cwd: String,
    pub term_width: Option<usize>,
}

/// Mathematical image of a [`RenderCtx`].
pub struct RenderCtxV {
    pub is_tty: bool,
    pub now: int,
    pub cwd: Seq<char>,
    pub term_width: Option<int>,
}

impl View for RenderCtx {
    type V = RenderCtxV;

    open spec fn view(&self) -> RenderCtxV {
        RenderCtxV {
            is_tty: self.is_tty,
            now: self.now as int,
            cwd: self.cwd@,
            term_width: match self.term_width {
                Some(w) => Some(w as int),
                None => None,
            },
        }
    }
}

/// The ways a run's arguments can be rejected before any traversal begins.
#[derive(Clone, Copy, PartialEq, Eq, Structural, Debug)]
pub enum ConfigError {
    /// A flag that needs a value stood last.
    MissingValue,
    /// An enumerated option got a word outside its choices.
    InvalidValue,
    /// A numeric option got something that is not a number that fits.
    InvalidNumber,
    /// The name pattern is not a valid regular expression.
    InvalidPattern,
}

} // verus!

use crate::pattern::{regex_is_valid, regex_pattern_valid};
use crate::strutil::str_eq;
use vstd::string::StrSliceExecFns;
use vstd::string::StringExecFns;

verus! {

/// Whether every character of the text is a decimal digit.
pub open spec fn digits_only(s: Seq<char>) -> bool {
    forall|i: int| 0 <= i < s.len() ==> 48 <= (#[trigger] s[i]) as u32 <= 57
}

/// The numeric value of a decimal numeral.
pub open spec fn digits_val(s: Seq<char>) -> int
    decreases s.len(),
{
    if s.len() == 0 {
        0
    } else {
        digits_val(s.drop_last()) * 10 + (s.last() as u32 - 48)
    }
}

/// What parsing a numeric flag value yields: the value of a non-empty
/// all-digit numeral that fits the machine word, nothing otherwise.
pub open spec fn parse_usize_spec(s: Seq<char>) -> Option<int> {
    if s.len() > 0 && digits_only(s) && digits_val(s) <= usize::MAX {
        Some(digits_val(s))
    } else {
        None
    }
}

proof fn lemma_digits_val_grows(s: Seq<char>, i: int, j: int)
    requires
        0 <= i <= j <= s.len(),
        digits_only(s),
    ensures
        0 <= digits_val(s.take(i)) <= digits_val(s.take(j)),
    decreases j - i,
{
    if i == j {
        lemma_digits_val_nonneg(s, i);
    } else {
        lemma_digits_val_grows(s, i, j - 1);
        assert(s.take(j).drop_last() =~= s.take(j - 1));
        assert(48 <= s.take(j).last() as u32 <= 57);
    }
}

proof fn lemma_digits_val_nonneg(s: Seq<char>, i: int)
    requires
        0 <= i <= s.len(),
        digits_only(s),
    ensures
        digits_val(s.take(i)) >= 0,
    decreases i,
{
    if i > 0 {
        lemma_digits_val_nonneg(s, i - 1);
        assert(s.take(i).drop_last() =~= s.take(i - 1));
        assert(48 <= s.take(i).last() as u32 <= 57);
    }
}

/// Parses a decimal numeral, rejecting anything else and anything that
/// does not fit the machine word.
pub fn parse_usize(s: &str) -> (r: Option<usize>)
    ensures
        match r {
            Some(v) => parse_usize_spec(s@) == Some(v as int),
            None => parse_usize_spec(s@) is None,
        },
{
    let l = s.unicode_len();
    if l == 0 {
        return None;
    }
    let mut acc: usize = 0;
    let mut i: usize = 0;
    proof {
        assert(s@.take(0) =~= Seq::<char>::empty());
    }
    while i < l
        invariant
            l == s@.len(),
            i <= l,
            forall|k: int| 0 <= k < i ==> 48 <= (#[trigger] s@[k]) as u32 <= 57,
            acc as int == digits_val(s@.take(i as int)),
        decreases l - i,
    {
        let c = s.get_char(i);
        let cv = c as u32;
        if cv < 48 || cv > 57 {
            proof {
                assert(!digits_only(s@));
            }
            return None;
        }
        let d: usize = (cv - 48) as usize;
        if acc > (usize::MAX - d) / 10 {
            proof {
                assert(s@.take(i + 1).drop_last() =~= s@.take(i as int));
                assert(s@.take(i + 1).last() == s@[i as int]);
                assert(digits_val(s@.take(i + 1)) == acc as int * 10 + d);
                assert(acc as int * 10 + d > usize::MAX) by (nonlinear_arith)
                    requires
                        acc as int > (usize::MAX as int - d) / 10,
                        0 <= d <= 9,
                        acc as int >= 0,
                ;
                if digits_only(s@) {
                    lemma_digits_val_grows(s@, i + 1, l as int);
                    assert(s@.take(l as int) =~= s@);
                }
            }
            return None;
        }
        proof {
            assert(acc as int * 10 + d <= usize::MAX) by (nonlinear_arith)
                requires
                    acc as int <= (usize::MAX as int - d) / 10,
                    0 <= d <= 9,
                    acc as int >= 0,
            ;
            assert(s@.take(i + 1).drop_last() =~= s@.take(i as int));
            assert(s@.take(i + 1).last() == s@[i as int]);
        }
        acc = acc * 10 + d;
        i = i + 1;
    }
    proof {
        assert(s@.take(l as int) =~= s@);
        assert(digits_only(s@));
    }
    Some(acc)
}

/// The configuration a run starts from before any flag is read: the tree
/// layout over the current directory, sorted by name, hidden entries and
/// sizes off, automatic classification, color and icons, names quoted.
pub open spec fn default_config_v() -> ConfigV {
    ConfigV {
        max_depth: None,
        show_hidden: false,
        root_path: "."@,
        sort_by: SortBy::Name,
        pattern: None,
        show_size: false,
        display_mode: DisplayMode::Tree,
        classify: Classify::Auto,
        dereference: false,
        color: ColorOption::Auto,
        color_scale: None,
        color_scale_mode: ColorScaleMode::Fixed,
        icons: IconOption::Auto,
        quote_names: true,
        hyperlink: false,
        absolute_path: AbsolutePathOption::Off,
        screen_width: None,
        sort_across: false,
        recurse: false,
    }
}

/// Reads the argument list into a validated configuration, or the error
/// that rejects it; the first argument is the program name. Each flag
/// updates its knob; a flag that needs a value reads the next argument or
/// fails with `MissingValue`; an enumerated option outside its choices
/// fails with `InvalidValue`; a numeric option that is not a fitting
/// numeral fails with `InvalidNumber`; a pattern the regex crate rejects
/// fails with `InvalidPattern`; any other word becomes the root path. A
/// configuration handed out always carries a valid pattern.
pub fn parse_args(args: &Vec<String>) -> (r: Result<Config, ConfigError>)
    ensures
        match r {
            Ok(c) => (match c@.pattern {
                Some(p) => regex_is_valid(p),
                None => true,
            }) && (args@.len() <= 1 ==> c@ == default_config_v()),
            Err(_) => args@.len() > 1,
        },
{
    let mut config = Config {
        max_depth: None,
        show_hidden: false,
        root_path: String::from_str("."),
        sort_by: SortBy::Name,
        pattern: None,
        show_size: false,
        display_mode: DisplayMode::Tree,
        classify: Classify::Auto,
        dereference: false,
        color: ColorOption::Auto,
        color_scale: None,
        color_scale_mode: ColorScaleMode::Fixed,
        icons: IconOption::Auto,
        quote_names: true,
        hyperlink: false,
        absolute_path: AbsolutePathOption::Off,
        screen_width: None,
        sort_across: false,
        recurse: false,
    };
    let n = args.len();
    let mut i: usize = 1;
    while i < n
        invariant
            n == args@.len(),
            1 <= i,
            match config@.pattern {
                Some(p) => regex_is_valid(p),
                None => true,
            },
            args@.len() <= 1 ==> config@ == default_config_v(),
        decreases n - i,
    {
        let a = &args[i];
        if str_eq(a.as_str(), "--max-depth") {
            if i + 1 < n {
                match parse_usize(args[i + 1].as_str()) {
                    Some(v) => {
                        config.max_depth = Some(v);
                        i = i + 1;
                    },
                    None => {
                        return Err(ConfigError::InvalidNumber);
                    },
                }
            } else {
                return Err(ConfigError::MissingValue);
            }
        } else if str_eq(a.as_str(), "--show-hidden") {
            config.show_hidden = true;
        } else if str_eq(a.as_str(), "--sort") {
            if i + 1 < n {
                let v = &args[i + 1];
                if str_eq(v.as_str(), "name") {
                    config.sort_by = SortBy::Name;
                } else if str_eq(v.as_str(), "size") {
                    config.sort_by = SortBy::Size;
                } else if str_eq(v.as_str(), "time") {
                    config.sort_by = SortBy::ModTime;
                } else {
                    return Err(ConfigError::InvalidValue);
                }
                i = i + 1;
            } else {
                return Err(ConfigError::MissingValue);
            }
        } else if str_eq(a.as_str(), "--pattern") {
            if i + 1 < n {
                let v = &args[i + 1];
                if regex_pattern_valid(v.as_str()) {
                    config.pattern = Some(v.clone());
                    i = i + 1;
                } else {
                    return Err(ConfigError::InvalidPattern);
                }
            } else {
                return Err(ConfigError::MissingValue);
            }
        } else if str_eq(a.as_str(), "--show-size") {
            config.show_size = true;
        } else if str_eq(a.as_str(), "-1") || str_eq(a.as_str(), "--oneline") {
            config.display_mode = DisplayMode::OneLine;
        } else if str_eq(a.as_str(), "-l") || str_eq(a.as_str(), "--long") {
            config.display_mode = DisplayMode::Long;
        } else if str_eq(a.as_str(), "-G") || str_eq(a.as_str(), "--grid") {
            config.display_mode = DisplayMode::Grid;
        } else if str_eq(a.as_str(), "-T") || str_eq(a.as_str(), "--tree") {
            config.display_mode = DisplayMode::Tree;
        } else if str_eq(a.as_str(), "-X") || str_eq(a.as_str(), "--dereference") {
            config.dereference = true;
        } else if str_eq(a.as_str(), "-F") || str_eq(a.as_str(), "--classify") {
            if i + 1 < n {
                let v = &args[i + 1];
                if str_eq(v.as_str(), "always") {
                    config.classify = Classify::Always;
                } else if str_eq(v.as_str(), "auto") {
                    config.classify = Classify::Auto;
                } else if str_eq(v.as_str(), "never") {
                    config.classify = Classify::Never;
                } else {
                    return Err(ConfigError::InvalidValue);
                }
                i = i + 1;
            } else {
                return Err(ConfigError::MissingValue);
            }
        } else if str_eq(a.as_str(), "--color") || str_eq(a.as_str(), "--colour") {
            if i + 1 < n {
                let v = &args[i + 1];
                if str_eq(v.as_str(), "always") {
                    config.color = ColorOption::Always;
                } else if str_eq(v.as_str(), "auto") {
                    config.color = ColorOption::Auto;
                } else if str_eq(v.as_str(), "never") {
                    config.color = ColorOption::Never;
                } else {
                    return Err(ConfigError::InvalidValue);
                }
                i = i + 1;
            } else {
                return Err(ConfigError::MissingValue);
            }
        } else if str_eq(a.as_str(), "--color-scale") || str_eq(a.as_str(), "--colour-scale") {
            if i + 1 < n {
                let v = &args[i + 1];
                if str_eq(v.as_str(), "all") {
                    config.color_scale = Some(ColorScale::All);
                } else if str_eq(v.as_str(), "age") {
                    config.color_scale = Some(ColorScale::Age);
                } else if str_eq(v.as_str(), "size") {
                    config.color_scale = Some(ColorScale::Size);
                } else {
                    return Err(ConfigError::InvalidValue);
                }
                i = i + 1;
            } else {
                return Err(ConfigError::MissingValue);
            }
        } else if str_eq(a.as_str(), "--color-scale-mode") || str_eq(
            a.as_str(),
            "--colour-scale-mode",
        ) {
            if i + 1 < n {
                let v = &args[i + 1];
                if str_eq(v.as_str(), "fixed") {
                    config.color_scale_mode = ColorScaleMode::Fixed;
                } else if str_eq(v.as_str(), "gradient") {
                    config.color_scale_mode = ColorScaleMode::Gradient;
                } else {
                    return Err(ConfigError::InvalidValue);
                }
                i = i + 1;
            } else {
                return Err(ConfigError::MissingValue);
            }
        } else if str_eq(a.as_str(), "--icons") {
            if i + 1 < n {
                let v = &args[i + 1];
                if str_eq(v.as_str(), "always") {
                    config.icons = IconOption::Always;
                } else if str_eq(v.as_str(), "auto") {
                    config.icons = IconOption::Auto;
                } else if str_eq(v.as_str(), "never") {
                    config.icons = IconOption::Never;
                } else {
                    return Err(ConfigError::InvalidValue);
                }
                i = i + 1;
            } else {
                return Err(ConfigError::MissingValue);
            }
        } else if str_eq(a.as_str(), "--no-quotes") {
            config.quote_names = false;
        } else if str_eq(a.as_str(), "--hyperlink") {
            config.hyperlink = true;
        } else if str_eq(a.as_str(), "--absolute") {
            if i + 1 < n {
                let v = &args[i + 1];
                if str_eq(v.as_str(), "on") {
                    config.absolute_path = AbsolutePathOption::On;
                } else if str_eq(v.as_str(), "follow") {
                    config.absolute_path = AbsolutePathOption::Follow;
                } else if str_eq(v.as_str(), "off") {
                    config.absolute_path = AbsolutePathOption::Off;
                } else {
                    return Err(ConfigError::InvalidValue);
                }
                i = i + 1;
            } else {
                return Err(ConfigError::MissingValue);
            }
        } else if str_eq(a.as_str(), "-w") || str_eq(a.as_str(), "--width") {
            if i + 1 < n {
                match parse_usize(args[i + 1].as_str()) {
                    Some(v) => {
                        config.screen_width = Some(v);
                        i = i + 1;
                    },
                    None => {
                        return Err(ConfigError::InvalidNumber);
                    },
                }
            } else {
                return Err(ConfigError::MissingValue);
            }
        } else if str_eq(a.as_str(), "-x") || str_eq(a.as_str(), "--across") {
            config.sort_across = true;
        } else if str_eq(a.as_str(), "-R") || str_eq(a.as_str(), "--recurse") {
            config.recurse = true;
        } else {
            config.root_path = a.clone();
        }
        i = i + 1;
    }
    Ok(config)
}

} // verus!
