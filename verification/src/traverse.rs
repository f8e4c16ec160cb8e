use vstd::prelude::*;
use vstd::string::StringExecFns;

use crate::config::{AbsolutePathOption, Config, ConfigV};
use crate::entry::{
    entries_view, lemma_sat_add_assoc, sat_add, sat_add_u64, Entry, EntryV, Node, TreeStats,
};
use crate::is_hidden;
use crate::order::{insert_sorted, sort_entries, sort_seq, HasSortKey};
use crate::pattern::{regex_is_valid, regex_match, regex_matches};
use crate::strutil::{file_name_of, file_name_spec};

verus! {

/// Whether an entry passes the hidden-file and name-pattern filters: a
/// hidden name is excluded unless hidden entries are shown, and a name that
/// does not match the pattern is excluded unless it is a directory (those
/// are kept so that matching descendants can be reached).
pub open spec fn passes_filter_spec(name: Seq<char>, is_dir: bool, cfg: ConfigV) -> bool {
    &&& (cfg.show_hidden || !(name.len() > 0 && name[0] == '.'))
    &&& match cfg.pattern {
        Some(p) => is_dir || (regex_is_valid(p) && regex_matches(p, name)),
        None => true,
    }
}

/// Decides the filters for one node.
pub fn passes_filter(node: &Node, config: &Config) -> (r: bool)
    ensures
        r == passes_filter_spec(node.name@, node.ntype is Directory, config@),
{
    if !config.show_hidden && is_hidden(node.name.as_str()) {
        return false;
    }
    match &config.pattern {
        Some(p) => {
            if node.ntype.is_dir() {
                true
            } else {
                regex_match(p.as_str(), node.name.as_str())
            }
        },
        None => true,
    }
}

/// The path shown for a node: left as given, replaced by its canonical form,
/// or replaced by the symlink's target, per the absolute-path policy; where
/// the accessor could not resolve, the raw path stands.
pub open spec fn display_path_spec(node: Node, raw: Seq<char>, cfg: ConfigV) -> Seq<char> {
    match cfg.absolute_path {
        AbsolutePathOption::On => match node.canonical {
            Some(c) => c@,
            None => raw,
        },
        AbsolutePathOption::Follow => {
            if node.ntype is Symlink {
                match node.link_target {
                    Some(t) => t@,
                    None => raw,
                }
            } else {
                raw
            }
        },
        AbsolutePathOption::Off => raw,
    }
}

/// Resolves the display path of a node, once, at entry creation.
pub fn get_display_path(node: &Node, raw: &str, config: &Config) -> (r: String)
    ensures
        r@ == display_path_spec(*node, raw@, config@),
{
    match config.absolute_path {
        AbsolutePathOption::On => match &node.canonical {
            Some(c) => c.clone(),
            None => String::from_str(raw),
        },
        AbsolutePathOption::Follow => {
            if node.ntype.is_dir() || !matches!(node.ntype, crate::entry::NodeType::Symlink) {
                String::from_str(raw)
            } else {
                match &node.link_target {
                    Some(t) => t.clone(),
                    None => String::from_str(raw),
                }
            }
        },
        AbsolutePathOption::Off => String::from_str(raw),
    }
}

/// The raw path of a child: the directory, the separator, the name.
pub open spec fn child_path_spec(dir: Seq<char>, name: Seq<char>) -> Seq<char> {
    dir + "/"@ + name
}

/// Builds the raw path of a child.
pub fn child_path(dir: &str, name: &str) -> (r: String)
    ensures
        r@ == child_path_spec(dir@, name@),
{
    let mut s = String::from_str(dir);
    s.append("/");
    s.append(name);
    proof {
        assert(s@ =~= child_path_spec(dir@, name@));
    }
    s
}

/// The resolved entry made for a node found at the given raw path.
pub open spec fn entry_v(node: Node, raw: Seq<char>, cfg: ConfigV) -> EntryV {
    let dp = display_path_spec(node, raw, cfg);
    EntryV {
        path: dp,
        name: file_name_spec(dp),
        size: node.size as int,
        mtime: node.mtime as int,
        ntype: node.ntype,
    }
}

/// Builds the resolved entry for one node.
pub fn make_entry(node: &Node, raw: &str, config: &Config) -> (e: Entry)
    ensures
        e@ == entry_v(*node, raw@, config@),
{
    let path = get_display_path(node, raw, config);
    let name = file_name_of(path.as_str());
    Entry { path, name, size: node.size, mtime: node.mtime, ntype: node.ntype }
}

/// What one traversal yields: the entries in order, and the counts.
pub struct TraversalV {
    pub entries: Seq<EntryV>,
    pub dirs: nat,
    pub files: nat,
    pub size: nat,
}

/// The empty yield.
pub open spec fn traversal_empty() -> TraversalV {
    TraversalV { entries: Seq::empty(), dirs: 0, files: 0, size: 0 }
}

/// The yield of the children of a directory from index `i` on: each passing
/// child contributes its entry, its counts, and (recursing into passing
/// directories when recursion is on) the yield of its subtree. A passing
/// directory counts toward `dirs` whether or not recursion descends into
/// it, and only the counted files contribute their sizes.
pub open spec fn collect_children(cs: Seq<Node>, i: int, dir: Seq<char>, cfg: ConfigV)
    -> TraversalV
    decreases cs, 1int, cs.len() - i,
{
    if i < 0 || i >= cs.len() {
        traversal_empty()
    } else {
        let c = cs[i];
        let rest = collect_children(cs, i + 1, dir, cfg);
        if passes_filter_spec(c.name@, c.ntype is Directory, cfg) {
            let cp = child_path_spec(dir, c.name@);
            let ev = entry_v(c, cp, cfg);
            let sub = if cfg.recurse && c.ntype is Directory {
                collect_spec(cs[i], cp, cfg)
            } else {
                traversal_empty()
            };
            TraversalV {
                entries: seq![ev] + sub.entries + rest.entries,
                dirs: (if c.ntype is Directory && !cfg.recurse {
                    1nat
                } else {
                    0nat
                }) + sub.dirs + rest.dirs,
                files: (if c.ntype is File {
                    1nat
                } else {
                    0nat
                }) + sub.files + rest.files,
                size: (if c.ntype is File {
                    c.size as nat
                } else {
                    0nat
                }) + sub.size + rest.size,
            }
        } else {
            rest
        }
    }
}

/// The yield of a flat traversal rooted at a node: nothing for anything but
/// a directory; for a directory, the directory itself counted and its
/// children's yield, the entries sorted by the ordering policy.
pub open spec fn collect_spec(node: Node, raw: Seq<char>, cfg: ConfigV) -> TraversalV
    decreases node, 0int, 0int,
{
    if node.ntype is Directory {
        let c = collect_children(node.children@, 0, raw, cfg);
        TraversalV {
            entries: sort_seq(c.entries, cfg.sort_by),
            dirs: c.dirs + 1,
            files: c.files,
            size: c.size,
        }
    } else {
        traversal_empty()
    }
}

proof fn lemma_view_push(s: Seq<Entry>, x: Entry)
    ensures
        entries_view(s.push(x)) == entries_view(s).push(x@),
{
    assert(entries_view(s.push(x)) =~= entries_view(s).push(x@));
}

proof fn lemma_view_insert_sorted(x: Entry, s: Seq<Entry>, sort: crate::config::SortBy)
    ensures
        entries_view(insert_sorted(x, s, sort)) == insert_sorted(x@, entries_view(s), sort),
    decreases s.len(),
{
    let sv = entries_view(s);
    assert(x@.sort_key() == x.sort_key());
    if s.len() == 0 {
        assert(entries_view(insert_sorted(x, s, sort)) =~= insert_sorted(x@, sv, sort));
    } else {
        assert(sv.last() == s.last()@);
        assert(s.last()@.sort_key() == s.last().sort_key());
        if crate::order::key_le(sort, s.last().sort_key(), x.sort_key()) {
            lemma_view_push(s, x);
        } else {
            assert(entries_view(s.drop_last()) =~= sv.drop_last());
            lemma_view_insert_sorted(x, s.drop_last(), sort);
            lemma_view_push(insert_sorted(x, s.drop_last(), sort), s.last());
        }
    }
}

/// The mathematical image of a sorted entry vector is the sorted image.
pub proof fn lemma_view_sort_seq(s: Seq<Entry>, sort: crate::config::SortBy)
    ensures
        entries_view(sort_seq(s, sort)) == sort_seq(entries_view(s), sort),
    decreases s.len(),
{
    let sv = entries_view(s);
    if s.len() == 0 {
        assert(entries_view(sort_seq(s, sort)) =~= sort_seq(sv, sort));
    } else {
        assert(sv.last() == s.last()@);
        assert(entries_view(s.drop_last()) =~= sv.drop_last());
        lemma_view_sort_seq(s.drop_last(), sort);
        lemma_view_insert_sorted(s.last(), sort_seq(s.drop_last(), sort), sort);
    }
}

/// Walks the subtree under `node` (found at `raw_path`) and collects the
/// filtered entries of its directory, depth-first and pre-order when
/// recursion is on, sorted by the ordering policy. Every counted entry
/// raises the accumulator exactly once, capped at the counter's range.
pub fn collect_entries(node: &Node, raw_path: &str, config: &Config, stats: &mut TreeStats) -> (r:
    Vec<Entry>)
    ensures
        entries_view(r@) == collect_spec(*node, raw_path@, config@).entries,
        final(stats).directories as int == sat_add(
            old(stats).directories as int,
            collect_spec(*node, raw_path@, config@).dirs as int,
        ),
        final(stats).files as int == sat_add(
            old(stats).files as int,
            collect_spec(*node, raw_path@, config@).files as int,
        ),
        final(stats).total_size as int == sat_add(
            old(stats).total_size as int,
            collect_spec(*node, raw_path@, config@).size as int,
        ),
    decreases *node,
{
    let ghost total = collect_spec(*node, raw_path@, config@);
    let mut entries: Vec<Entry> = Vec::new();
    if !node.ntype.is_dir() {
        proof {
            assert(entries_view(entries@) =~= total.entries);
        }
        return entries;
    }
    stats.directories = sat_add_u64(stats.directories, 1);
    let ghost base = *stats;
    let ghost cs = node.children@;
    let ghost c_total = collect_children(cs, 0, raw_path@, config@);
    let m = node.children.len();
    let mut k: usize = 0;
    while k < m
        invariant
            k <= m,
            m == cs.len(),
            cs == node.children@,
            entries_view(entries@) + collect_children(cs, k as int, raw_path@, config@).entries
                == c_total.entries,
            sat_add(
                stats.directories as int,
                collect_children(cs, k as int, raw_path@, config@).dirs as int,
            ) == sat_add(base.directories as int, c_total.dirs as int),
            sat_add(
                stats.files as int,
                collect_children(cs, k as int, raw_path@, config@).files as int,
            ) == sat_add(base.files as int, c_total.files as int),
            sat_add(
                stats.total_size as int,
                collect_children(cs, k as int, raw_path@, config@).size as int,
            ) == sat_add(base.total_size as int, c_total.size as int),
        decreases m - k,
    {
        let ghost rest_k = collect_children(cs, k as int, raw_path@, config@);
        let ghost rest_k1 = collect_children(cs, k + 1, raw_path@, config@);
        let child = &node.children[k];
        proof {
            assert(*child == cs[k as int]);
        }
        if passes_filter(child, config) {
            let cp = child_path(raw_path, child.name.as_str());
            let e = make_entry(child, cp.as_str(), config);
            let ghost sub = if config@.recurse && cs[k as int].ntype is Directory {
                collect_spec(cs[k as int], cp@, config@)
            } else {
                traversal_empty()
            };
            let ghost fdelta: nat = if child.ntype is File {
                1nat
            } else {
                0nat
            };
            let ghost sdelta: nat = if child.ntype is File {
                child.size as nat
            } else {
                0nat
            };
            let ghost ddelta: nat = if child.ntype is Directory && !config@.recurse {
                1nat
            } else {
                0nat
            };
            proof {
                assert(rest_k.entries == seq![e@] + sub.entries + rest_k1.entries);
                assert(rest_k.dirs == ddelta + sub.dirs + rest_k1.dirs);
                assert(rest_k.files == fdelta + sub.files + rest_k1.files);
                assert(rest_k.size == sdelta + sub.size + rest_k1.size);
            }
            let ghost stats0 = *stats;
            let ghost pre_entries = entries@;
            if child.ntype.is_file() {
                stats.total_size = sat_add_u64(stats.total_size, child.size);
                stats.files = sat_add_u64(stats.files, 1);
            }
            if !config.recurse && child.ntype.is_dir() {
                stats.directories = sat_add_u64(stats.directories, 1);
            }
            entries.push(e);
            if config.recurse && child.ntype.is_dir() {
                let mut sub_vec = collect_entries(child, cp.as_str(), config, stats);
                entries.append(&mut sub_vec);
            }
            proof {
                assert(entries_view(entries@) =~= entries_view(pre_entries) + seq![e@]
                    + sub.entries);
                assert((entries_view(pre_entries) + seq![e@] + sub.entries) + rest_k1.entries
                    =~= entries_view(pre_entries) + rest_k.entries);
                // size: the file's own bytes fold with the subtree's, then
                // the remaining children move across
                lemma_sat_add_assoc(stats0.total_size as int, sdelta as int, sub.size as int);
                lemma_sat_add_assoc(
                    stats0.total_size as int,
                    sdelta as int + sub.size as int,
                    rest_k1.size as int,
                );
                // files
                lemma_sat_add_assoc(stats0.files as int, fdelta as int, sub.files as int);
                lemma_sat_add_assoc(
                    stats0.files as int,
                    fdelta as int + sub.files as int,
                    rest_k1.files as int,
                );
                // directories
                lemma_sat_add_assoc(stats0.directories as int, ddelta as int, sub.dirs as int);
                lemma_sat_add_assoc(
                    stats0.directories as int,
                    ddelta as int + sub.dirs as int,
                    rest_k1.dirs as int,
                );
            }
        } else {
            proof {
                assert(rest_k == rest_k1);
            }
        }
        k = k + 1;
    }
    proof {
        assert(collect_children(cs, m as int, raw_path@, config@) == traversal_empty());
        assert(entries_view(entries@) + Seq::<EntryV>::empty() =~= entries_view(entries@));
        assert(entries_view(entries@) == c_total.entries);
        lemma_sat_add_assoc(old(stats).directories as int, 1, c_total.dirs as int);
    }
    let ghost pre_sort = entries@;
    sort_entries(&mut entries, config.sort_by);
    proof {
        lemma_view_sort_seq(pre_sort, config.sort_by);
    }
    entries
}

} // verus!
