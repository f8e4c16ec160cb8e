use vstd::prelude::*;
use vstd::string::StrSliceExecFns;
use vstd::string::StringExecFns;

use crate::config::{Config, ConfigV, RenderCtx, RenderCtxV, SortBy};
use crate::decor::{age_of, get_color_for_scale, get_icon, get_type_indicator, icon_chosen_spec,
    indicator_spec, scale_color_spec};
use crate::entry::{children_height, lemma_child_height, lemma_sat_add_assoc, node_height, sat_add,
    sat_add_u64, strings_view, Node, TreeStats};
use crate::format::{format_file_name, format_hyperlink, hyperlink_spec, quoted_name_spec};
use crate::order::{insert_sorted, key_le, sort_items, sort_seq, HasSortKey, SortKeyV, Sortable};
use crate::render::size_suffix_spec;
use crate::strutil::{file_name_of, file_name_spec, str_le};
use crate::traverse::{child_path, child_path_spec, display_path_spec, get_display_path,
    passes_filter, passes_filter_spec};

verus! {

/// A child's position in its directory paired with the key it is ordered
/// by; the tree renderer sorts these, not the nodes themselves.
pub struct KeyedIdx {
    pub idx: int,
    pub key: SortKeyV,
}

impl HasSortKey for KeyedIdx {
    open spec fn sort_key(&self) -> SortKeyV {
        self.key
    }
}

/// The executable counterpart of [`KeyedIdx`].
pub struct IdxEntry {
    pub idx: usize,
    pub name: String,
    pub size: u64,
    pub mtime: i64,
}

impl HasSortKey for IdxEntry {
    open spec fn sort_key(&self) -> SortKeyV {
        SortKeyV { name: self.name@, size: self.size as int, mtime: self.mtime as int }
    }
}

impl Sortable for IdxEntry {
    fn le_by(&self, other: &Self, sort: SortBy) -> (r: bool)
        ensures
            r == key_le(sort, self.sort_key(), other.sort_key()),
    {
        match sort {
            SortBy::Name => str_le(self.name.as_str(), other.name.as_str()),
            SortBy::Size => self.size >= other.size,
            SortBy::ModTime => self.mtime >= other.mtime,
        }
    }
}

/// The mathematical image of an [`IdxEntry`].
pub open spec fn keyed_view(x: IdxEntry) -> KeyedIdx {
    KeyedIdx { idx: x.idx as int, key: x.sort_key() }
}

/// The images of a sequence of index entries.
pub open spec fn keyed_views(s: Seq<IdxEntry>) -> Seq<KeyedIdx> {
    s.map_values(|x: IdxEntry| keyed_view(x))
}

proof fn lemma_keyed_insert(x: IdxEntry, s: Seq<IdxEntry>, sort: SortBy)
    ensures
        keyed_views(insert_sorted(x, s, sort)) == insert_sorted(keyed_view(x), keyed_views(s), sort),
    decreases s.len(),
{
    let sv = keyed_views(s);
    if s.len() == 0 {
        assert(keyed_views(insert_sorted(x, s, sort)) =~= insert_sorted(keyed_view(x), sv, sort));
    } else {
        assert(sv.last() == keyed_view(s.last()));
        if key_le(sort, s.last().sort_key(), x.sort_key()) {
            assert(keyed_views(s.push(x)) =~= sv.push(keyed_view(x)));
        } else {
            assert(keyed_views(s.drop_last()) =~= sv.drop_last());
            lemma_keyed_insert(x, s.drop_last(), sort);
            assert(keyed_views(insert_sorted(x, s.drop_last(), sort).push(s.last())) =~= keyed_views(
                insert_sorted(x, s.drop_last(), sort),
            ).push(keyed_view(s.last())));
        }
    }
}

/// Sorting index entries and then taking their images is the same as
/// sorting the images.
pub proof fn lemma_keyed_sort(s: Seq<IdxEntry>, sort: SortBy)
    ensures
        keyed_views(sort_seq(s, sort)) == sort_seq(keyed_views(s), sort),
    decreases s.len(),
{
    let sv = keyed_views(s);
    if s.len() == 0 {
        assert(keyed_views(sort_seq(s, sort)) =~= sort_seq(sv, sort));
    } else {
        assert(sv.last() == keyed_view(s.last()));
        assert(keyed_views(s.drop_last()) =~= sv.drop_last());
        lemma_keyed_sort(s.drop_last(), sort);
        lemma_keyed_insert(s.last(), sort_seq(s.drop_last(), sort), sort);
    }
}

/// The keyed indices of the children that pass the filters, from `i` on,
/// in directory order.
pub open spec fn filtered_keyed(cs: Seq<Node>, i: int, cfg: ConfigV) -> Seq<KeyedIdx>
    decreases cs.len() - i,
{
    if i < 0 || i >= cs.len() {
        Seq::empty()
    } else {
        (if passes_filter_spec(cs[i].name@, cs[i].ntype is Directory, cfg) {
            seq![KeyedIdx { idx: i, key: cs[i].sort_key() }]
        } else {
            Seq::empty()
        }) + filtered_keyed(cs, i + 1, cfg)
    }
}

/// The order in which the tree renderer visits a directory's children:
/// the passing children, sorted by the ordering policy.
pub open spec fn tree_order(cs: Seq<Node>, cfg: ConfigV) -> Seq<KeyedIdx> {
    sort_seq(filtered_keyed(cs, 0, cfg), cfg.sort_by)
}

/// The continuation segments of a tree prefix from flag `i` on: blank for
/// a finished last-sibling ancestor, a vertical bar otherwise.
pub open spec fn cont_prefix(cont: Seq<bool>, i: int) -> Seq<char>
    decreases cont.len() - i,
{
    if i < 0 || i >= cont.len() {
        Seq::empty()
    } else {
        (if cont[i] {
            "    "@
        } else {
            "│   "@
        }) + cont_prefix(cont, i + 1)
    }
}

/// The printed prefix of an entry: one continuation segment per ancestor
/// level above the immediate parent, then the branch marker, which is the
/// corner form exactly for the last sibling.
pub open spec fn tree_prefix(cont: Seq<bool>, is_last: bool) -> Seq<char> {
    cont_prefix(cont, 0) + (if is_last {
        "└── "@
    } else {
        "├── "@
    })
}

/// One printed tree line for a node at depth one or more.
pub open spec fn tree_line_spec(
    node: Node,
    raw: Seq<char>,
    cont: Seq<bool>,
    is_last: bool,
    cfg: ConfigV,
    ctx: RenderCtxV,
) -> Seq<char> {
    let dp = display_path_spec(node, raw, cfg);
    let name = file_name_spec(dp);
    tree_prefix(cont, is_last) + scale_color_spec(
        cfg.color_scale,
        cfg.color_scale_mode,
        age_of(ctx.now, node.mtime as int),
        node.size as int,
    ) + icon_chosen_spec(cfg.icons, ctx.is_tty, node.ntype is Directory, name) + hyperlink_spec(
        dp,
        quoted_name_spec(name, cfg.quote_names),
        cfg.hyperlink,
        ctx.cwd,
    ) + indicator_spec(node.ntype, cfg.classify) + "\u{1b}[0m"@ + size_suffix_spec(
        node.size as int,
        cfg.show_size,
    )
}

/// What the tree renderer yields for a subtree: the printed lines and the
/// counts.
pub struct TreeV {
    pub lines: Seq<Seq<char>>,
    pub dirs: nat,
    pub files: nat,
    pub size: nat,
}

/// The empty yield.
pub open spec fn tree_empty() -> TreeV {
    TreeV { lines: Seq::empty(), dirs: 0, files: 0, size: 0 }
}

/// The yield of a directory's children from position `j` of the visiting
/// order on.
pub open spec fn tree_kids(
    cs: Seq<Node>,
    ord: Seq<KeyedIdx>,
    j: int,
    dir: Seq<char>,
    level: nat,
    cont: Seq<bool>,
    cfg: ConfigV,
    ctx: RenderCtxV,
) -> TreeV
    decreases cs, 0int, ord.len() - j,
{
    if j < 0 || j >= ord.len() {
        tree_empty()
    } else {
        let rest = tree_kids(cs, ord, j + 1, dir, level, cont, cfg, ctx);
        let ix = ord[j].idx;
        if 0 <= ix < cs.len() {
            let sub = tree_visit(
                cs[ix],
                child_path_spec(dir, cs[ix].name@),
                (level + 1) as nat,
                cont,
                j == ord.len() - 1,
                cfg,
                ctx,
            );
            TreeV {
                lines: sub.lines + rest.lines,
                dirs: sub.dirs + rest.dirs,
                files: sub.files + rest.files,
                size: sub.size + rest.size,
            }
        } else {
            rest
        }
    }
}

/// The yield of the tree renderer for a node visited at `level` with the
/// given ancestor flags: nothing at or beyond the depth limit; its own
/// prefixed line at depth one or more; for a directory, the directory
/// counted and its passing children visited in sorted order; for anything
/// else, the node counted as a file with its size.
pub open spec fn tree_visit(
    node: Node,
    raw: Seq<char>,
    level: nat,
    cont: Seq<bool>,
    is_last: bool,
    cfg: ConfigV,
    ctx: RenderCtxV,
) -> TreeV
    decreases node, 1int, 0int,
{
    if (match cfg.max_depth {
        Some(d) => level >= d,
        None => false,
    }) {
        tree_empty()
    } else {
        let line = if level > 0 {
            seq![tree_line_spec(node, raw, cont, is_last, cfg, ctx)]
        } else {
            Seq::empty()
        };
        if node.ntype is Directory {
            let dp = display_path_spec(node, raw, cfg);
            let ord = tree_order(node.children@, cfg);
            let ccont = if level > 0 {
                cont.push(is_last)
            } else {
                cont
            };
            let ch = tree_kids(node.children@, ord, 0, dp, level, ccont, cfg, ctx);
            TreeV { lines: line + ch.lines, dirs: ch.dirs + 1, files: ch.files, size: ch.size }
        } else {
            TreeV { lines: line, dirs: 0, files: 1, size: node.size as nat }
        }
    }
}

/// Copies the ancestor flags.
fn clone_bools(v: &Vec<bool>) -> (r: Vec<bool>)
    ensures
        r@ == v@,
{
    let mut out: Vec<bool> = Vec::new();
    let n = v.len();
    let mut i: usize = 0;
    while i < n
        invariant
            n == v@.len(),
            i <= n,
            out@ == v@.take(i as int),
        decreases n - i,
    {
        out.push(v[i]);
        proof {
            assert(out@ =~= v@.take(i + 1));
        }
        i = i + 1;
    }
    proof {
        assert(v@.take(n as int) =~= v@);
    }
    out
}

/// Renders the printed line of one tree entry.
fn render_tree_line(
    node: &Node,
    raw: &str,
    cont: &Vec<bool>,
    is_last: bool,
    config: &Config,
    ctx: &RenderCtx,
) -> (r: String)
    ensures
        r@ == tree_line_spec(*node, raw@, cont@, is_last, config@, ctx@),
{
    let mut out = String::new();
    let n = cont.len();
    let mut i: usize = 0;
    proof {
        assert(out@ + cont_prefix(cont@, 0) =~= cont_prefix(cont@, 0));
    }
    while i < n
        invariant
            n == cont@.len(),
            i <= n,
            out@ + cont_prefix(cont@, i as int) == cont_prefix(cont@, 0),
        decreases n - i,
    {
        if cont[i] {
            out.append("    ");
        } else {
            out.append("│   ");
        }
        proof {
            assert(out@ + cont_prefix(cont@, i + 1) =~= cont_prefix(cont@, 0));
        }
        i = i + 1;
    }
    if is_last {
        out.append("└── ");
    } else {
        out.append("├── ");
    }
    let dp = get_display_path(node, raw, config);
    let name = file_name_of(dp.as_str());
    let color = get_color_for_scale(
        config.color_scale,
        config.color_scale_mode,
        ctx.now,
        node.mtime,
        node.size,
    );
    out.append(color.as_str());
    out.append(get_icon(node.ntype.is_dir(), name.as_str(), config.icons, ctx.is_tty));
    let fname = format_file_name(name.as_str(), config.quote_names);
    let hname = format_hyperlink(
        dp.as_str(),
        fname.as_str(),
        config.hyperlink,
        ctx.cwd.as_str(),
    );
    out.append(hname.as_str());
    out.append(get_type_indicator(node.ntype, config.classify));
    out.append("\u{1b}[0m");
    crate::render::append_size_suffix(&mut out, node.size, config.show_size);
    proof {
        assert(out@ =~= tree_line_spec(*node, raw@, cont@, is_last, config@, ctx@));
    }
    out
}

/// Walks and renders the subtree under `node`, interleaving traversal and
/// rendering, and accumulates the counts, capped at the counter's range.
pub fn print_tree(
    node: &Node,
    raw: &str,
    level: usize,
    cont: &Vec<bool>,
    is_last: bool,
    config: &Config,
    ctx: &RenderCtx,
    stats: &mut TreeStats,
) -> (r: Vec<String>)
    requires
        level + node_height(*node) <= usize::MAX,
    ensures
        strings_view(r@) == tree_visit(
            *node,
            raw@,
            level as nat,
            cont@,
            is_last,
            config@,
            ctx@,
        ).lines,
        final(stats).directories as int == sat_add(
            old(stats).directories as int,
            tree_visit(*node, raw@, level as nat, cont@, is_last, config@, ctx@).dirs as int,
        ),
        final(stats).files as int == sat_add(
            old(stats).files as int,
            tree_visit(*node, raw@, level as nat, cont@, is_last, config@, ctx@).files as int,
        ),
        final(stats).total_size as int == sat_add(
            old(stats).total_size as int,
            tree_visit(*node, raw@, level as nat, cont@, is_last, config@, ctx@).size as int,
        ),
    decreases *node,
{
    let ghost tv = tree_visit(*node, raw@, level as nat, cont@, is_last, config@, ctx@);
    let mut out: Vec<String> = Vec::new();
    match config.max_depth {
        Some(d) => {
            if level >= d {
                proof {
                    assert(strings_view(out@) =~= tv.lines);
                }
                return out;
            }
        },
        None => {},
    }
    if level > 0 {
        let line = render_tree_line(node, raw, cont, is_last, config, ctx);
        out.push(line);
    }
    if !node.ntype.is_dir() {
        stats.files = sat_add_u64(stats.files, 1);
        stats.total_size = sat_add_u64(stats.total_size, node.size);
        proof {
            assert(strings_view(out@) =~= tv.lines);
        }
        return out;
    }
    stats.directories = sat_add_u64(stats.directories, 1);
    let ghost base = *stats;
    let ghost cs = node.children@;
    let dp = get_display_path(node, raw, config);
    let mut keys: Vec<IdxEntry> = Vec::new();
    let m = node.children.len();
    let mut k: usize = 0;
    while k < m
        invariant
            k <= m,
            m == cs.len(),
            cs == node.children@,
            keyed_views(keys@) + filtered_keyed(cs, k as int, config@) == filtered_keyed(
                cs,
                0,
                config@,
            ),
        decreases m - k,
    {
        let child = &node.children[k];
        proof {
            assert(*child == cs[k as int]);
        }
        let ghost pre = keys@;
        if passes_filter(child, config) {
            keys.push(
                IdxEntry { idx: k, name: child.name.clone(), size: child.size, mtime: child.mtime },
            );
            proof {
                assert(keyed_views(keys@) =~= keyed_views(pre) + seq![
                    KeyedIdx { idx: k as int, key: cs[k as int].sort_key() },
                ]);
                assert(keyed_views(keys@) + filtered_keyed(cs, k + 1, config@) =~= keyed_views(pre)
                    + filtered_keyed(cs, k as int, config@));
            }
        }
        k = k + 1;
    }
    proof {
        assert(filtered_keyed(cs, m as int, config@) == Seq::<KeyedIdx>::empty());
        assert(keyed_views(keys@) + Seq::<KeyedIdx>::empty() =~= keyed_views(keys@));
    }
    let ghost pre_sort = keys@;
    sort_items(&mut keys, config.sort_by);
    let ghost ord = tree_order(cs, config@);
    proof {
        lemma_keyed_sort(pre_sort, config.sort_by);
        assert(keyed_views(keys@) == ord);
    }
    let mut ccont = clone_bools(cont);
    if level > 0 {
        ccont.push(is_last);
    }
    let ghost line_part = strings_view(out@);
    let ghost ch_total = tree_kids(cs, ord, 0, dp@, level as nat, ccont@, config@, ctx@);
    let kn = keys.len();
    let mut j: usize = 0;
    while j < kn
        invariant
            j <= kn,
            kn == keys@.len(),
            kn == ord.len(),
            keyed_views(keys@) == ord,
            cs == node.children@,
            m == cs.len(),
            level + node_height(*node) <= usize::MAX,
            dp@ == display_path_spec(*node, raw@, config@),
            ccont@ == (if level > 0 {
                cont@.push(is_last)
            } else {
                cont@
            }),
            line_part.len() <= 1,
            strings_view(out@) + tree_kids(
                cs,
                ord,
                j as int,
                dp@,
                level as nat,
                ccont@,
                config@,
                ctx@,
            ).lines == line_part + ch_total.lines,
            sat_add(
                stats.directories as int,
                tree_kids(cs, ord, j as int, dp@, level as nat, ccont@, config@, ctx@).dirs as int,
            ) == sat_add(base.directories as int, ch_total.dirs as int),
            sat_add(
                stats.files as int,
                tree_kids(cs, ord, j as int, dp@, level as nat, ccont@, config@, ctx@).files as int,
            ) == sat_add(base.files as int, ch_total.files as int),
            sat_add(
                stats.total_size as int,
                tree_kids(cs, ord, j as int, dp@, level as nat, ccont@, config@, ctx@).size as int,
            ) == sat_add(base.total_size as int, ch_total.size as int),
        decreases kn - j,
    {
        let ghost rest_j = tree_kids(cs, ord, j as int, dp@, level as nat, ccont@, config@, ctx@);
        let ghost rest_j1 = tree_kids(cs, ord, j + 1, dp@, level as nat, ccont@, config@, ctx@);
        let ix = keys[j].idx;
        proof {
            assert(keyed_views(keys@)[j as int] == keyed_view(keys@[j as int]));
            assert(ord[j as int].idx == ix as int);
        }
        if ix < m {
            let child = &node.children[ix];
            proof {
                assert(*child == cs[ix as int]);
                lemma_child_height(cs, 0, ix as int);
                assert(node_height(cs[ix as int]) <= children_height(cs, 0));
            }
            let cp = child_path(dp.as_str(), child.name.as_str());
            let ghost stats0 = *stats;
            let ghost pre_out = out@;
            let ghost sub = tree_visit(
                cs[ix as int],
                child_path_spec(dp@, cs[ix as int].name@),
                (level + 1) as nat,
                ccont@,
                j == kn - 1,
                config@,
                ctx@,
            );
            let mut sub_lines = print_tree(
                child,
                cp.as_str(),
                level + 1,
                &ccont,
                j == kn - 1,
                config,
                ctx,
                stats,
            );
            out.append(&mut sub_lines);
            proof {
                assert(rest_j.lines == sub.lines + rest_j1.lines);
                assert(rest_j.dirs == sub.dirs + rest_j1.dirs);
                assert(rest_j.files == sub.files + rest_j1.files);
                assert(rest_j.size == sub.size + rest_j1.size);
                assert(strings_view(out@) =~= strings_view(pre_out) + sub.lines);
                assert(strings_view(out@) + rest_j1.lines =~= strings_view(pre_out)
                    + rest_j.lines);
                lemma_sat_add_assoc(stats0.directories as int, sub.dirs as int, rest_j1.dirs as int);
                lemma_sat_add_assoc(stats0.files as int, sub.files as int, rest_j1.files as int);
                lemma_sat_add_assoc(stats0.total_size as int, sub.size as int, rest_j1.size as int);
            }
        } else {
            proof {
                assert(rest_j == rest_j1);
            }
        }
        j = j + 1;
    }
    proof {
        assert(tree_kids(cs, ord, kn as int, dp@, level as nat, ccont@, config@, ctx@)
            == tree_empty());
        assert(strings_view(out@) + Seq::<Seq<char>>::empty() =~= strings_view(out@));
        assert(strings_view(out@) == line_part + ch_total.lines);
        assert(strings_view(out@) =~= tv.lines);
        lemma_sat_add_assoc(old(stats).directories as int, 1, ch_total.dirs as int);
    }
    out
}

/// Renders the whole tree under the configured root: the caller prints the
/// root path line itself, as the layout's level zero shows no prefix.
pub fn render_tree(root: &Node, config: &Config, ctx: &RenderCtx, stats: &mut TreeStats) -> (r:
    Vec<String>)
    requires
        node_height(*root) <= usize::MAX,
    ensures
        strings_view(r@) == tree_visit(
            *root,
            config.root_path@,
            0,
            Seq::empty(),
            false,
            config@,
            ctx@,
        ).lines,
        final(stats).directories as int == sat_add(
            old(stats).directories as int,
            tree_visit(*root, config.root_path@, 0, Seq::empty(), false, config@, ctx@).dirs as int,
        ),
        final(stats).files as int == sat_add(
            old(stats).files as int,
            tree_visit(*root, config.root_path@, 0, Seq::empty(), false, config@, ctx@).files as int,
        ),
        final(stats).total_size as int == sat_add(
            old(stats).total_size as int,
            tree_visit(*root, config.root_path@, 0, Seq::empty(), false, config@, ctx@).size as int,
        ),
{
    let cont: Vec<bool> = Vec::new();
    let r = print_tree(root, config.root_path.as_str(), 0, &cont, false, config, ctx, stats);
    proof {
        assert(cont@ =~= Seq::<bool>::empty());
    }
    r
}

/// The prefix of an entry at depth `d` (with `d - 1` ancestor flags) holds
/// exactly `d - 1` four-character continuation segments followed by one
/// four-character branch marker, and the marker is the corner form exactly
/// for a last sibling.
pub proof fn lemma_tree_prefix_shape(cont: Seq<bool>, is_last: bool)
    ensures
        tree_prefix(cont, is_last).len() == 4 * cont.len() + 4,
        tree_prefix(cont, is_last).skip(4 * cont.len() as int) == (if is_last {
            "└── "@
        } else {
            "├── "@
        }),
        tree_prefix(cont, is_last).take(4 * cont.len() as int) == cont_prefix(cont, 0),
{
    reveal_strlit("└── ");
    reveal_strlit("├── ");
    lemma_cont_prefix_len(cont, 0);
    assert(tree_prefix(cont, is_last).skip(4 * cont.len() as int) =~= (if is_last {
        "└── "@
    } else {
        "├── "@
    }));
    assert(tree_prefix(cont, is_last).take(4 * cont.len() as int) =~= cont_prefix(cont, 0));
}

/// Each continuation segment is four characters wide.
proof fn lemma_cont_prefix_len(cont: Seq<bool>, i: int)
    requires
        0 <= i <= cont.len(),
    ensures
        cont_prefix(cont, i).len() == 4 * (cont.len() - i),
    decreases cont.len() - i,
{
    reveal_strlit("    ");
    reveal_strlit("│   ");
    reveal_strlit("└── ");
    reveal_strlit("├── ");
    if i < cont.len() {
        lemma_cont_prefix_len(cont, i + 1);
    }
}

/// A subtree visited at or beyond the depth limit contributes no line and
/// no count.
pub proof fn lemma_tree_depth_cutoff(
    node: Node,
    raw: Seq<char>,
    level: nat,
    cont: Seq<bool>,
    is_last: bool,
    cfg: ConfigV,
    ctx: RenderCtxV,
)
    requires
        match cfg.max_depth {
            Some(d) => level >= d,
            None => false,
        },
    ensures
        tree_visit(node, raw, level, cont, is_last, cfg, ctx) == tree_empty(),
{
}

/// With a depth limit of zero the tree renderer prints nothing at all:
/// only the separately printed root path line remains.
pub proof fn lemma_tree_depth_zero(
    node: Node,
    raw: Seq<char>,
    cont: Seq<bool>,
    is_last: bool,
    cfg: ConfigV,
    ctx: RenderCtxV,
)
    requires
        cfg.max_depth == Some(0int),
    ensures
        tree_visit(node, raw, 0, cont, is_last, cfg, ctx).lines == Seq::<Seq<char>>::empty(),
{
}

} // verus!
