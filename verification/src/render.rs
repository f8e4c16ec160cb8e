use vstd::prelude::*;
use vstd::string::StrSliceExecFns;
use vstd::string::StringExecFns;

use crate::config::{ColorOption, Config, ConfigV, RenderCtx, RenderCtxV};
use crate::decor::{
    age_of, get_color_for_scale, get_icon, get_type_indicator, icon_chosen_spec, indicator_spec,
    scale_color_spec,
};
use crate::entry::{entries_view, strings_view, Entry, EntryV, TreeStats};
use crate::format::{
    format_file_name, format_hyperlink, format_size, format_size_spec, get_file_type_str,
    hyperlink_spec, quoted_name_spec, type_str_spec,
};
use crate::strutil::{
    append_pad_left, append_pad_right, dec_str, pad_left_spec, pad_right_spec, repeat_seq,
    repeat_str, u64_to_string,
};

verus! {

/// The size suffix shown after an entry when sizes are on: the formatted
/// size in brackets.
pub open spec fn size_suffix_spec(size: int, show: bool) -> Seq<char> {
    if show {
        " ["@ + format_size_spec(size) + "]"@
    } else {
        Seq::<char>::empty()
    }
}

/// Appends the size suffix onto a line.
pub(crate) fn append_size_suffix(out: &mut String, size: u64, show: bool)
    ensures
        final(out)@ == old(out)@ + size_suffix_spec(size as int, show),
{
    if show {
        out.append(" [");
        let fs = format_size(size);
        out.append(fs.as_str());
        out.append("]");
    }
    proof {
        assert(final(out)@ =~= old(out)@ + size_suffix_spec(size as int, show));
    }
}

/// One fully decorated one-per-line row: color escape, icon, hyperlinked
/// quoted name, classification suffix, optional bracketed size, reset.
pub open spec fn oneline_line_spec(e: EntryV, cfg: ConfigV, ctx: RenderCtxV) -> Seq<char> {
    scale_color_spec(cfg.color_scale, cfg.color_scale_mode, age_of(ctx.now, e.mtime), e.size)
        + icon_chosen_spec(cfg.icons, ctx.is_tty, e.ntype is Directory, e.name) + hyperlink_spec(
        e.path,
        quoted_name_spec(e.name, cfg.quote_names),
        cfg.hyperlink,
        ctx.cwd,
    ) + indicator_spec(e.ntype, cfg.classify) + size_suffix_spec(e.size, cfg.show_size)
        + "\u{1b}[0m"@
}

/// Renders one entry as its one-per-line row.
pub fn render_entry_oneline(e: &Entry, config: &Config, ctx: &RenderCtx) -> (r: String)
    ensures
        r@ == oneline_line_spec(e@, config@, ctx@),
{
    let mut out = get_color_for_scale(
        config.color_scale,
        config.color_scale_mode,
        ctx.now,
        e.mtime,
        e.size,
    );
    out.append(get_icon(e.ntype.is_dir(), e.name.as_str(), config.icons, ctx.is_tty));
    let fname = format_file_name(e.name.as_str(), config.quote_names);
    let hname = format_hyperlink(
        e.path.as_str(),
        fname.as_str(),
        config.hyperlink,
        ctx.cwd.as_str(),
    );
    out.append(hname.as_str());
    out.append(get_type_indicator(e.ntype, config.classify));
    append_size_suffix(&mut out, e.size, config.show_size);
    out.append("\u{1b}[0m");
    proof {
        assert(out@ =~= oneline_line_spec(e@, config@, ctx@));
    }
    out
}

/// The one-per-line layout: one decorated row for each entry, in order.
pub open spec fn oneline_spec(es: Seq<EntryV>, cfg: ConfigV, ctx: RenderCtxV) -> Seq<Seq<char>> {
    es.map_values(|e: EntryV| oneline_line_spec(e, cfg, ctx))
}

/// Renders the one-per-line layout.
pub fn render_entries_oneline(entries: &Vec<Entry>, config: &Config, ctx: &RenderCtx) -> (r: Vec<
    String,
>)
    ensures
        strings_view(r@) == oneline_spec(entries_view(entries@), config@, ctx@),
{
    let mut out: Vec<String> = Vec::new();
    let n = entries.len();
    let mut i: usize = 0;
    while i < n
        invariant
            n == entries@.len(),
            i <= n,
            out@.len() == i,
            forall|j: int|
                0 <= j < i ==> (#[trigger] out@[j])@ == oneline_line_spec(
                    entries@[j]@,
                    config@,
                    ctx@,
                ),
        decreases n - i,
    {
        let line = render_entry_oneline(&entries[i], config, ctx);
        out.push(line);
        i = i + 1;
    }
    proof {
        assert(strings_view(out@) =~= oneline_spec(entries_view(entries@), config@, ctx@));
    }
    out
}

/// Whether the summary is wrapped in bold color escapes: color must be on
/// and the output an interactive terminal.
pub open spec fn summary_colored(color: ColorOption, is_tty: bool) -> bool {
    (color is Always || color is Auto) && is_tty
}

/// The first summary line: a blank line, then the directory and file counts.
pub open spec fn summary_line1_spec(dirs: int, files: int, colored: bool) -> Seq<char> {
    let base = "\n"@ + dec_str(dirs) + " directories, "@ + dec_str(files) + " files"@;
    if colored {
        "\u{1b}[1;34m"@ + base + "\u{1b}[0m"@
    } else {
        base
    }
}

/// The second summary line: the total size.
pub open spec fn summary_line2_spec(size: int, colored: bool) -> Seq<char> {
    let base = "Total size: "@ + format_size_spec(size);
    if colored {
        "\u{1b}[1;32m"@ + base + "\u{1b}[0m"@
    } else {
        base
    }
}

/// Renders the two summary lines from the accumulated counts.
pub fn render_summary(stats: &TreeStats, config: &Config, is_tty: bool) -> (r: (String, String))
    ensures
        r.0@ == summary_line1_spec(
            stats.directories as int,
            stats.files as int,
            summary_colored(config.color, is_tty),
        ),
        r.1@ == summary_line2_spec(
            stats.total_size as int,
            summary_colored(config.color, is_tty),
        ),
{
    let colored = matches!(config.color, ColorOption::Always | ColorOption::Auto) && is_tty;
    let mut l1 = if colored {
        String::from_str("\u{1b}[1;34m")
    } else {
        String::new()
    };
    l1.append("\n");
    let ds = u64_to_string(stats.directories);
    l1.append(ds.as_str());
    l1.append(" directories, ");
    let fs = u64_to_string(stats.files);
    l1.append(fs.as_str());
    l1.append(" files");
    if colored {
        l1.append("\u{1b}[0m");
    }
    let mut l2 = if colored {
        String::from_str("\u{1b}[1;32m")
    } else {
        String::new()
    };
    l2.append("Total size: ");
    let ts = format_size(stats.total_size);
    l2.append(ts.as_str());
    if colored {
        l2.append("\u{1b}[0m");
    }
    proof {
        assert(l1@ =~= summary_line1_spec(
            stats.directories as int,
            stats.files as int,
            summary_colored(config.color, is_tty),
        ));
        assert(l2@ =~= summary_line2_spec(
            stats.total_size as int,
            summary_colored(config.color, is_tty),
        ));
    }
    (l1, l2)
}

/// The larger of two widths.
pub open spec fn nmax(a: nat, b: nat) -> nat {
    if a >= b {
        a
    } else {
        b
    }
}

/// The widest formatted size among the entries from index `i` on.
pub open spec fn max_size_w(es: Seq<EntryV>, i: int) -> nat
    decreases es.len() - i,
{
    if i < 0 || i >= es.len() {
        0
    } else {
        nmax(format_size_spec(es[i].size).len(), max_size_w(es, i + 1))
    }
}

/// The widest raw name among the entries from index `i` on.
pub open spec fn max_name_w(es: Seq<EntryV>, i: int) -> nat
    decreases es.len() - i,
{
    if i < 0 || i >= es.len() {
        0
    } else {
        nmax(es[i].name.len(), max_name_w(es, i + 1))
    }
}

/// The header of the long listing: the type column, the size column
/// right-aligned to the widest size, the timestamp column, the name.
pub open spec fn long_header_spec(w: nat) -> Seq<char> {
    pad_right_spec("Type"@, 10) + " "@ + pad_left_spec("Size"@, w) + " "@ + pad_right_spec(
        "Modified"@,
        20,
    ) + " "@ + "Name"@
}

/// The separator rule of the long listing, sized to the header.
pub open spec fn long_sep_spec(w: nat, nw: nat) -> Seq<char> {
    repeat_seq("-"@, 33 + w + nw)
}

/// One row of the long listing, given the rendered timestamp of the entry.
pub open spec fn long_row_spec(e: EntryV, ts: Seq<char>, w: nat, cfg: ConfigV, ctx: RenderCtxV)
    -> Seq<char> {
    scale_color_spec(cfg.color_scale, cfg.color_scale_mode, age_of(ctx.now, e.mtime), e.size)
        + pad_right_spec(type_str_spec(e.ntype), 10) + " "@ + pad_left_spec(
        format_size_spec(e.size),
        w,
    ) + " "@ + pad_right_spec(ts, 20) + " "@ + icon_chosen_spec(
        cfg.icons,
        ctx.is_tty,
        e.ntype is Directory,
        e.name,
    ) + hyperlink_spec(e.path, quoted_name_spec(e.name, cfg.quote_names), cfg.hyperlink, ctx.cwd)
        + indicator_spec(e.ntype, cfg.classify) + size_suffix_spec(e.size, cfg.show_size)
        + "\u{1b}[0m"@
}

/// The rows of the long listing from index `i` on.
pub open spec fn long_rows_spec(
    es: Seq<EntryV>,
    tss: Seq<Seq<char>>,
    i: int,
    w: nat,
    cfg: ConfigV,
    ctx: RenderCtxV,
) -> Seq<Seq<char>>
    decreases es.len() - i,
{
    if i < 0 || i >= es.len() {
        Seq::empty()
    } else {
        seq![long_row_spec(es[i], tss[i], w, cfg, ctx)] + long_rows_spec(es, tss, i + 1, w, cfg, ctx)
    }
}

/// The long listing: header, separator, one row per entry in order, with
/// both column widths taken from a pre-pass over the entries.
pub open spec fn long_spec(es: Seq<EntryV>, tss: Seq<Seq<char>>, cfg: ConfigV, ctx: RenderCtxV)
    -> Seq<Seq<char>> {
    let w = max_size_w(es, 0);
    let nw = max_name_w(es, 0);
    seq![long_header_spec(w), long_sep_spec(w, nw)] + long_rows_spec(es, tss, 0, w, cfg, ctx)
}

/// Renders one row of the long listing.
fn render_entry_long(e: &Entry, ts: &str, w: usize, config: &Config, ctx: &RenderCtx) -> (r:
    String)
    ensures
        r@ == long_row_spec(e@, ts@, w as nat, config@, ctx@),
{
    let mut out = get_color_for_scale(
        config.color_scale,
        config.color_scale_mode,
        ctx.now,
        e.mtime,
        e.size,
    );
    append_pad_right(&mut out, get_file_type_str(e.ntype), 10);
    out.append(" ");
    let fsz = format_size(e.size);
    append_pad_left(&mut out, fsz.as_str(), w);
    out.append(" ");
    append_pad_right(&mut out, ts, 20);
    out.append(" ");
    out.append(get_icon(e.ntype.is_dir(), e.name.as_str(), config.icons, ctx.is_tty));
    let fname = format_file_name(e.name.as_str(), config.quote_names);
    let hname = format_hyperlink(
        e.path.as_str(),
        fname.as_str(),
        config.hyperlink,
        ctx.cwd.as_str(),
    );
    out.append(hname.as_str());
    out.append(get_type_indicator(e.ntype, config.classify));
    append_size_suffix(&mut out, e.size, config.show_size);
    out.append("\u{1b}[0m");
    proof {
        assert(out@ =~= long_row_spec(e@, ts@, w as nat, config@, ctx@));
    }
    out
}

/// The widest formatted size among the entries.
fn compute_max_size_w(entries: &Vec<Entry>) -> (w: usize)
    ensures
        w as nat == max_size_w(entries_view(entries@), 0),
{
    let ghost es = entries_view(entries@);
    let n = entries.len();
    let mut w: usize = 0;
    let mut i: usize = 0;
    while i < n
        invariant
            n == entries@.len(),
            es == entries_view(entries@),
            i <= n,
            nmax(w as nat, max_size_w(es, i as int)) == max_size_w(es, 0),
        decreases n - i,
    {
        let fs = format_size(entries[i].size);
        let l = fs.as_str().unicode_len();
        proof {
            assert(l as nat == format_size_spec(es[i as int].size).len());
        }
        if l > w {
            w = l;
        }
        i = i + 1;
    }
    w
}

/// The widest raw name among the entries.
fn compute_max_name_w(entries: &Vec<Entry>) -> (w: usize)
    ensures
        w as nat == max_name_w(entries_view(entries@), 0),
{
    let ghost es = entries_view(entries@);
    let n = entries.len();
    let mut w: usize = 0;
    let mut i: usize = 0;
    while i < n
        invariant
            n == entries@.len(),
            es == entries_view(entries@),
            i <= n,
            nmax(w as nat, max_name_w(es, i as int)) == max_name_w(es, 0),
        decreases n - i,
    {
        let l = entries[i].name.as_str().unicode_len();
        if l > w {
            w = l;
        }
        i = i + 1;
    }
    w
}

/// Renders the long listing from entries and their pre-rendered timestamps.
pub fn render_entries_long(
    entries: &Vec<Entry>,
    timestamps: &Vec<String>,
    config: &Config,
    ctx: &RenderCtx,
) -> (r: Vec<String>)
    requires
        timestamps@.len() == entries@.len(),
        33 + max_size_w(entries_view(entries@), 0) + max_name_w(entries_view(entries@), 0)
            <= usize::MAX,
    ensures
        strings_view(r@) == long_spec(
            entries_view(entries@),
            strings_view(timestamps@),
            config@,
            ctx@,
        ),
{
    let ghost es = entries_view(entries@);
    let ghost tss = strings_view(timestamps@);
    let w = compute_max_size_w(entries);
    let nw = compute_max_name_w(entries);
    let mut out: Vec<String> = Vec::new();
    let mut header = String::new();
    append_pad_right(&mut header, "Type", 10);
    header.append(" ");
    append_pad_left(&mut header, "Size", w);
    header.append(" ");
    append_pad_right(&mut header, "Modified", 20);
    header.append(" ");
    header.append("Name");
    proof {
        assert(header@ =~= long_header_spec(w as nat));
    }
    out.push(header);
    let sep = repeat_str("-", 33 + w + nw);
    proof {
        assert(sep@ == long_sep_spec(w as nat, nw as nat));
    }
    out.push(sep);
    let n = entries.len();
    let mut i: usize = 0;
    while i < n
        invariant
            n == entries@.len(),
            n == timestamps@.len(),
            es == entries_view(entries@),
            tss == strings_view(timestamps@),
            i <= n,
            out@.len() == i + 2,
            out@[0]@ == long_header_spec(max_size_w(es, 0)),
            out@[1]@ == long_sep_spec(max_size_w(es, 0), max_name_w(es, 0)),
            w as nat == max_size_w(es, 0),
            forall|j: int|
                0 <= j < i ==> (#[trigger] out@[j + 2])@ == long_row_spec(
                    es[j],
                    tss[j],
                    w as nat,
                    config@,
                    ctx@,
                ),
        decreases n - i,
    {
        let row = render_entry_long(&entries[i], timestamps[i].as_str(), w, config, ctx);
        out.push(row);
        i = i + 1;
    }
    proof {
        assert forall|j: int| 0 <= j < n implies long_rows_spec(es, tss, 0, w as nat, config@, ctx@)[j]
            == long_row_spec(es[j], tss[j], w as nat, config@, ctx@) by {
            lemma_long_rows_index(es, tss, w as nat, config@, ctx@, j);
        }
        lemma_long_rows_len(es, tss, w as nat, config@, ctx@, 0);
        assert forall|k: int| 2 <= k < n + 2 implies (#[trigger] out@[k])@ == long_row_spec(
            es[k - 2],
            tss[k - 2],
            w as nat,
            config@,
            ctx@,
        ) by {
            assert(out@[(k - 2) + 2]@ == long_row_spec(es[k - 2], tss[k - 2], w as nat, config@, ctx@));
        }
        assert(strings_view(out@) =~= long_spec(es, tss, config@, ctx@));
    }
    out
}

proof fn lemma_long_rows_len(
    es: Seq<EntryV>,
    tss: Seq<Seq<char>>,
    w: nat,
    cfg: ConfigV,
    ctx: RenderCtxV,
    i: int,
)
    requires
        0 <= i <= es.len(),
    ensures
        long_rows_spec(es, tss, i, w, cfg, ctx).len() == es.len() - i,
    decreases es.len() - i,
{
    if i < es.len() {
        lemma_long_rows_len(es, tss, w, cfg, ctx, i + 1);
    }
}

proof fn lemma_long_rows_index(
    es: Seq<EntryV>,
    tss: Seq<Seq<char>>,
    w: nat,
    cfg: ConfigV,
    ctx: RenderCtxV,
    j: int,
)
    requires
        0 <= j < es.len(),
    ensures
        long_rows_spec(es, tss, 0, w, cfg, ctx).len() == es.len(),
        long_rows_spec(es, tss, 0, w, cfg, ctx)[j] == long_row_spec(es[j], tss[j], w, cfg, ctx),
{
    lemma_long_rows_len(es, tss, w, cfg, ctx, 0);
    lemma_long_rows_index_from(es, tss, w, cfg, ctx, 0, j);
}

proof fn lemma_long_rows_index_from(
    es: Seq<EntryV>,
    tss: Seq<Seq<char>>,
    w: nat,
    cfg: ConfigV,
    ctx: RenderCtxV,
    i: int,
    j: int,
)
    requires
        0 <= i <= j < es.len(),
    ensures
        long_rows_spec(es, tss, i, w, cfg, ctx)[j - i] == long_row_spec(es[j], tss[j], w, cfg, ctx),
    decreases j - i,
{
    lemma_long_rows_len(es, tss, w, cfg, ctx, i + 1);
    if i < j {
        lemma_long_rows_index_from(es, tss, w, cfg, ctx, i + 1, j);
    }
}

/// Renders the long listing, rendering each entry's timestamp in the
/// machine's local time zone; the lines equal the long layout for some
/// sequence of timestamp texts.
pub fn render_entries_long_local(entries: &Vec<Entry>, config: &Config, ctx: &RenderCtx) -> (r:
    Vec<String>)
    requires
        33 + max_size_w(entries_view(entries@), 0) + max_name_w(entries_view(entries@), 0)
            <= usize::MAX,
    ensures
        exists|tss: Seq<Seq<char>>|
            tss.len() == entries@.len() && strings_view(r@) == long_spec(
                entries_view(entries@),
                tss,
                config@,
                ctx@,
            ),
{
    let mut timestamps: Vec<String> = Vec::new();
    let n = entries.len();
    let mut i: usize = 0;
    while i < n
        invariant
            n == entries@.len(),
            i <= n,
            timestamps@.len() == i,
        decreases n - i,
    {
        timestamps.push(crate::format::format_timestamp(entries[i].mtime));
        i = i + 1;
    }
    let r = render_entries_long(entries, &timestamps, config, ctx);
    proof {
        let tss = strings_view(timestamps@);
        assert(tss.len() == entries@.len() && strings_view(r@) == long_spec(
            entries_view(entries@),
            tss,
            config@,
            ctx@,
        ));
    }
    r
}

} // verus!

verus! {

/// The grid cell text of an entry: icon, hyperlinked quoted name,
/// classification suffix, optional size, reset.
pub open spec fn grid_cell_text_spec(e: EntryV, cfg: ConfigV, ctx: RenderCtxV) -> Seq<char> {
    icon_chosen_spec(cfg.icons, ctx.is_tty, e.ntype is Directory, e.name) + hyperlink_spec(
        e.path,
        quoted_name_spec(e.name, cfg.quote_names),
        cfg.hyperlink,
        ctx.cwd,
    ) + indicator_spec(e.ntype, cfg.classify) + size_suffix_spec(e.size, cfg.show_size)
        + "\u{1b}[0m"@
}

/// The width an entry claims in the grid pre-pass: icon, quoted name,
/// suffix and size, without hyperlink wrapping and reset.
pub open spec fn cell_width_spec(e: EntryV, cfg: ConfigV, ctx: RenderCtxV) -> nat {
    icon_chosen_spec(cfg.icons, ctx.is_tty, e.ntype is Directory, e.name).len()
        + quoted_name_spec(e.name, cfg.quote_names).len() + indicator_spec(
        e.ntype,
        cfg.classify,
    ).len() + size_suffix_spec(e.size, cfg.show_size).len()
}

/// The widest cell among the entries from index `i` on.
pub open spec fn max_cell_w(es: Seq<EntryV>, i: int, cfg: ConfigV, ctx: RenderCtxV) -> nat
    decreases es.len() - i,
{
    if i < 0 || i >= es.len() {
        0
    } else {
        nmax(cell_width_spec(es[i], cfg, ctx), max_cell_w(es, i + 1, cfg, ctx))
    }
}

/// The usable terminal width: the explicit override, else the queried
/// terminal width, else eighty columns.
pub open spec fn grid_total_width(cfg: ConfigV, ctx: RenderCtxV) -> int {
    match cfg.screen_width {
        Some(w) => w,
        None => match ctx.term_width {
            Some(w) => w,
            None => 80,
        },
    }
}

/// The column count: usable width over the widest cell, at least one.
pub open spec fn grid_cols(es: Seq<EntryV>, cfg: ConfigV, ctx: RenderCtxV) -> int {
    let mew = max_cell_w(es, 0, cfg, ctx) + 2;
    let c = grid_total_width(cfg, ctx) / (mew as int);
    if c < 1 {
        1
    } else {
        c
    }
}

/// The row count: the entry count divided by the columns, rounded up.
pub open spec fn grid_rows_count(count: int, cols: int) -> int {
    (count + cols - 1) / cols
}

/// The entry index shown at a grid cell: row-major when filling across,
/// column-major when filling down.
pub open spec fn grid_index(across: bool, row: int, col: int, cols: int, rows: int) -> int {
    if across {
        row * cols + col
    } else {
        col * rows + row
    }
}

/// One rendered grid cell: the color escape and the cell text padded to the
/// cell width.
pub open spec fn grid_cell_spec(e: EntryV, mew: nat, cfg: ConfigV, ctx: RenderCtxV) -> Seq<char> {
    scale_color_spec(cfg.color_scale, cfg.color_scale_mode, age_of(ctx.now, e.mtime), e.size)
        + pad_right_spec(grid_cell_text_spec(e, cfg, ctx), mew)
}

/// One grid row from column `col` on; cells beyond the entry count are
/// skipped.
pub open spec fn grid_row_spec(
    es: Seq<EntryV>,
    row: int,
    col: int,
    cols: int,
    rows: int,
    mew: nat,
    cfg: ConfigV,
    ctx: RenderCtxV,
) -> Seq<char>
    decreases cols - col,
{
    if col < 0 || col >= cols {
        Seq::empty()
    } else {
        let idx = grid_index(cfg.sort_across, row, col, cols, rows);
        (if 0 <= idx < es.len() {
            grid_cell_spec(es[idx], mew, cfg, ctx)
        } else {
            Seq::empty()
        }) + grid_row_spec(es, row, col + 1, cols, rows, mew, cfg, ctx)
    }
}

/// The grid lines from row `row` on: one line per row, however many cells
/// it filled.
pub open spec fn grid_lines_from(
    es: Seq<EntryV>,
    row: int,
    rows: int,
    cols: int,
    mew: nat,
    cfg: ConfigV,
    ctx: RenderCtxV,
) -> Seq<Seq<char>>
    decreases rows - row,
{
    if row < 0 || row >= rows {
        Seq::empty()
    } else {
        seq![grid_row_spec(es, row, 0, cols, rows, mew, cfg, ctx)] + grid_lines_from(
            es,
            row + 1,
            rows,
            cols,
            mew,
            cfg,
            ctx,
        )
    }
}

/// The grid layout of the entries.
pub open spec fn grid_spec(es: Seq<EntryV>, cfg: ConfigV, ctx: RenderCtxV) -> Seq<Seq<char>> {
    let mew = max_cell_w(es, 0, cfg, ctx) + 2;
    let cols = grid_cols(es, cfg, ctx);
    let rows = grid_rows_count(es.len() as int, cols);
    grid_lines_from(es, 0, rows, cols, mew, cfg, ctx)
}

/// Every cell width is at most the maximum from any earlier index.
proof fn lemma_max_cell_w_ge(es: Seq<EntryV>, i: int, j: int, cfg: ConfigV, ctx: RenderCtxV)
    requires
        0 <= i <= j < es.len(),
    ensures
        cell_width_spec(es[j], cfg, ctx) <= max_cell_w(es, i, cfg, ctx),
    decreases j - i,
{
    if i < j {
        lemma_max_cell_w_ge(es, i + 1, j, cfg, ctx);
    }
}

/// The widest cell among the entries.
fn compute_max_cell_w(entries: &Vec<Entry>, config: &Config, ctx: &RenderCtx) -> (w: usize)
    requires
        max_cell_w(entries_view(entries@), 0, config@, ctx@) + 2 <= usize::MAX,
    ensures
        w as nat == max_cell_w(entries_view(entries@), 0, config@, ctx@),
{
    let ghost es = entries_view(entries@);
    let n = entries.len();
    let mut w: usize = 0;
    let mut i: usize = 0;
    while i < n
        invariant
            n == entries@.len(),
            es == entries_view(entries@),
            max_cell_w(es, 0, config@, ctx@) + 2 <= usize::MAX,
            i <= n,
            nmax(w as nat, max_cell_w(es, i as int, config@, ctx@)) == max_cell_w(
                es,
                0,
                config@,
                ctx@,
            ),
        decreases n - i,
    {
        let e = &entries[i];
        proof {
            lemma_max_cell_w_ge(es, 0, i as int, config@, ctx@);
        }
        let icon = get_icon(e.ntype.is_dir(), e.name.as_str(), config.icons, ctx.is_tty);
        let fname = format_file_name(e.name.as_str(), config.quote_names);
        let ind = get_type_indicator(e.ntype, config.classify);
        let mut suffix = String::new();
        append_size_suffix(&mut suffix, e.size, config.show_size);
        let l = icon.unicode_len() + fname.as_str().unicode_len() + ind.unicode_len()
            + suffix.as_str().unicode_len();
        proof {
            assert(l as nat == cell_width_spec(es[i as int], config@, ctx@));
        }
        if l > w {
            w = l;
        }
        i = i + 1;
    }
    w
}

/// Renders one grid cell padded to the cell width.
fn render_grid_cell(e: &Entry, mew: usize, config: &Config, ctx: &RenderCtx) -> (r: String)
    ensures
        r@ == grid_cell_spec(e@, mew as nat, config@, ctx@),
{
    let mut out = get_color_for_scale(
        config.color_scale,
        config.color_scale_mode,
        ctx.now,
        e.mtime,
        e.size,
    );
    let mut cell = String::from_str(
        get_icon(e.ntype.is_dir(), e.name.as_str(), config.icons, ctx.is_tty),
    );
    let fname = format_file_name(e.name.as_str(), config.quote_names);
    let hname = format_hyperlink(
        e.path.as_str(),
        fname.as_str(),
        config.hyperlink,
        ctx.cwd.as_str(),
    );
    cell.append(hname.as_str());
    cell.append(get_type_indicator(e.ntype, config.classify));
    append_size_suffix(&mut cell, e.size, config.show_size);
    cell.append("\u{1b}[0m");
    proof {
        assert(cell@ =~= grid_cell_text_spec(e@, config@, ctx@));
    }
    append_pad_right(&mut out, cell.as_str(), mew);
    proof {
        assert(out@ =~= grid_cell_spec(e@, mew as nat, config@, ctx@));
    }
    out
}

/// Renders the grid layout: column count from the usable width, rows filled
/// across or down per the fill direction.
pub fn render_entries_grid(entries: &Vec<Entry>, config: &Config, ctx: &RenderCtx) -> (r: Vec<
    String,
>)
    requires
        max_cell_w(entries_view(entries@), 0, config@, ctx@) + 2 <= usize::MAX,
    ensures
        strings_view(r@) == grid_spec(entries_view(entries@), config@, ctx@),
{
    let ghost es = entries_view(entries@);
    let n = entries.len();
    let mcw = compute_max_cell_w(entries, config, ctx);
    let mew = mcw + 2;
    let tw: usize = match config.screen_width {
        Some(w) => w,
        None => match ctx.term_width {
            Some(w) => w,
            None => 80,
        },
    };
    let c0 = tw / mew;
    let cols: usize = if c0 < 1 {
        1
    } else {
        c0
    };
    proof {
        assert(cols as int == grid_cols(es, config@, ctx@));
    }
    let rows128: u128 = ((n as u128) + (cols as u128) - 1) / (cols as u128);
    proof {
        assert(rows128 as int == ((n as int) + (cols as int) - 1) / (cols as int));
        assert(rows128 as int <= n as int) by (nonlinear_arith)
            requires
                rows128 as int == ((n as int) + (cols as int) - 1) / (cols as int),
                cols as int >= 1,
                n as int >= 0,
        ;
    }
    let rows: usize = rows128 as usize;
    proof {
        assert(rows as int == grid_rows_count(n as int, cols as int));
    }
    let mut out: Vec<String> = Vec::new();
    let mut row: usize = 0;
    while row < rows
        invariant
            n == entries@.len(),
            es == entries_view(entries@),
            mew as nat == max_cell_w(es, 0, config@, ctx@) + 2,
            cols as int == grid_cols(es, config@, ctx@),
            rows as int == grid_rows_count(n as int, cols as int),
            row <= rows,
            strings_view(out@) + grid_lines_from(
                es,
                row as int,
                rows as int,
                cols as int,
                mew as nat,
                config@,
                ctx@,
            ) == grid_lines_from(es, 0, rows as int, cols as int, mew as nat, config@, ctx@),
        decreases rows - row,
    {
        let mut line = String::new();
        let mut col: usize = 0;
        while col < cols
            invariant
                n == entries@.len(),
                es == entries_view(entries@),
                mew as nat == max_cell_w(es, 0, config@, ctx@) + 2,
                col <= cols,
                row < rows,
                line@ + grid_row_spec(
                    es,
                    row as int,
                    col as int,
                    cols as int,
                    rows as int,
                    mew as nat,
                    config@,
                    ctx@,
                ) == grid_row_spec(
                    es,
                    row as int,
                    0,
                    cols as int,
                    rows as int,
                    mew as nat,
                    config@,
                    ctx@,
                ),
            decreases cols - col,
        {
            proof {
                assert((row as int) * (cols as int) + (col as int) <= u128::MAX as int
                    && (col as int) * (rows as int) + (row as int) <= u128::MAX as int)
                    by (nonlinear_arith)
                    requires
                        0 <= row as int <= u64::MAX as int,
                        0 <= cols as int <= u64::MAX as int,
                        0 <= col as int <= u64::MAX as int,
                        0 <= rows as int <= u64::MAX as int,
                ;
            }
            let idx128: u128 = if config.sort_across {
                (row as u128) * (cols as u128) + (col as u128)
            } else {
                (col as u128) * (rows as u128) + (row as u128)
            };
            proof {
                assert(idx128 as int == grid_index(
                    config@.sort_across,
                    row as int,
                    col as int,
                    cols as int,
                    rows as int,
                ));
            }
            if idx128 < n as u128 {
                let idx: usize = idx128 as usize;
                let cell = render_grid_cell(&entries[idx], mew, config, ctx);
                line.append(cell.as_str());
            }
            proof {
                assert(line@ + grid_row_spec(
                    es,
                    row as int,
                    col + 1,
                    cols as int,
                    rows as int,
                    mew as nat,
                    config@,
                    ctx@,
                ) =~= grid_row_spec(
                    es,
                    row as int,
                    0,
                    cols as int,
                    rows as int,
                    mew as nat,
                    config@,
                    ctx@,
                ));
            }
            col = col + 1;
        }
        out.push(line);
        proof {
            assert(strings_view(out@) =~= strings_view(out@.drop_last()) + seq![out@.last()@]);
            assert(strings_view(out@) + grid_lines_from(
                es,
                row + 1,
                rows as int,
                cols as int,
                mew as nat,
                config@,
                ctx@,
            ) =~= grid_lines_from(es, 0, rows as int, cols as int, mew as nat, config@, ctx@));
        }
        row = row + 1;
    }
    proof {
        assert(strings_view(out@) + Seq::<Seq<char>>::empty() =~= strings_view(out@));
        assert(strings_view(out@) =~= grid_spec(es, config@, ctx@));
    }
    out
}

/// Whether some in-range grid cell maps to the entry index `i`.
pub open spec fn grid_covers(across: bool, i: int, cols: int, rows: int) -> bool {
    exists|r: int, c: int|
        0 <= r < rows && 0 <= c < cols && grid_index(across, r, c, cols, rows) == i
}

/// For either fill direction, the grid cell-to-index mapping is a bijection
/// onto the entry indices: every index below the count is shown in exactly
/// one in-range cell.
pub proof fn lemma_grid_bijection(across: bool, count: int, cols: int, rows: int)
    requires
        cols >= 1,
        count >= 0,
        rows == grid_rows_count(count, cols),
    ensures
        forall|i: int| 0 <= i < count ==> #[trigger] grid_covers(across, i, cols, rows),
        forall|r1: int, c1: int, r2: int, c2: int|
            0 <= r1 < rows && 0 <= c1 < cols && 0 <= r2 < rows && 0 <= c2 < cols && grid_index(
                across,
                r1,
                c1,
                cols,
                rows,
            ) == grid_index(across, r2, c2, cols, rows) ==> r1 == r2 && c1 == c2,
{
    assert(rows * cols >= count) by (nonlinear_arith)
        requires
            cols >= 1,
            count >= 0,
            rows == (count + cols - 1) / cols,
    ;
    if count > 0 {
        assert(rows >= 1) by (nonlinear_arith)
            requires
                cols >= 1,
                count >= 1,
                rows == (count + cols - 1) / cols,
        ;
    }
    assert forall|i: int| 0 <= i < count implies #[trigger] grid_covers(
        across,
        i,
        cols,
        rows,
    ) by {
        if across {
            let r = i / cols;
            let c = i % cols;
            assert(0 <= c < cols && i == r * cols + c && 0 <= r && r < rows) by (nonlinear_arith)
                requires
                    cols >= 1,
                    0 <= i < count,
                    rows * cols >= count,
                    r == i / cols,
                    c == i % cols,
            ;
            assert(grid_index(across, r, c, cols, rows) == i);
        } else {
            let c = i / rows;
            let r = i % rows;
            assert(0 <= r < rows && i == c * rows + r && 0 <= c && c < cols) by (nonlinear_arith)
                requires
                    rows >= 1,
                    cols >= 1,
                    0 <= i < count,
                    rows * cols >= count,
                    c == i / rows,
                    r == i % rows,
            ;
            assert(grid_index(across, r, c, cols, rows) == i);
        }
    }
    assert forall|r1: int, c1: int, r2: int, c2: int|
        0 <= r1 < rows && 0 <= c1 < cols && 0 <= r2 < rows && 0 <= c2 < cols && grid_index(
            across,
            r1,
            c1,
            cols,
            rows,
        ) == grid_index(across, r2, c2, cols, rows) implies r1 == r2 && c1 == c2 by {
        if across {
            assert(r1 == r2 && c1 == c2) by (nonlinear_arith)
                requires
                    0 <= r1,
                    0 <= r2,
                    0 <= c1 < cols,
                    0 <= c2 < cols,
                    r1 * cols + c1 == r2 * cols + c2,
            ;
        } else {
            assert(c1 == c2 && r1 == r2) by (nonlinear_arith)
                requires
                    0 <= c1,
                    0 <= c2,
                    0 <= r1 < rows,
                    0 <= r2 < rows,
                    c1 * rows + r1 == c2 * rows + r2,
            ;
        }
    }
}

} // verus!
