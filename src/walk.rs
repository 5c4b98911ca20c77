//! The two sections of a snapshot, computed from a depth-first listing of
//! the tree: the indented tree, pruned at every directory that is left out,
//! and the list of files whose contents follow, filtered one by one.

use vstd::prelude::*;
use vstd::string::StringExecFns;

use crate::filter::{is_ignored, opt_view, should_ignore, sources};
use crate::path::{file_name, file_name_of};
use crate::pattern::IgnorePattern;

verus! {

#[derive(Clone, Copy, Debug, PartialEq, Eq, Structural)]
pub enum EntryKind {
    Dir,
    File,
    Other,
}

/// One entry of a depth-first listing of a tree: the root has depth 0, the
/// entries of a directory follow it with its depth plus one.
#[derive(Debug)]
pub struct Entry {
    pub path: String,
    pub depth: usize,
    pub kind: EntryKind,
}

/// Entry `j` is below the root and left out.
pub open spec fn candidate(
    es: Seq<Entry>,
    j: int,
    ex: Option<Seq<char>>,
    ps: Seq<Seq<char>>,
) -> bool {
    es[j].depth > 0 && is_ignored(es[j].path@, ex, ps)
}

/// Entry `i` is entry `j` or lies in the subtree that `j` opens: every entry
/// after `j` up to `i` is deeper than `j`.
pub open spec fn covers(es: Seq<Entry>, j: int, i: int) -> bool {
    j <= i && forall|k: int| j < k <= i ==> #[trigger] es[k].depth > es[j].depth
}

/// Entry `i` has a line in the tree: neither it nor a directory above it
/// is left out.
pub open spec fn shown(es: Seq<Entry>, i: int, ex: Option<Seq<char>>, ps: Seq<Seq<char>>) -> bool {
    !exists|j: int| 0 <= j <= i && #[trigger] candidate(es, j, ex, ps) && covers(es, j, i)
}

/// Two spaces for each level of depth.
pub open spec fn indent(depth: nat) -> Seq<char> {
    Seq::new(2 * depth, |_k: int| ' ')
}

/// The base name of a path, or the whole path where it has none.
pub open spec fn base_name(p: Seq<char>) -> Seq<char> {
    match file_name_of(p) {
        Some(n) => n,
        None => p,
    }
}

/// A directory is listed by its path and a slash, anything else by its
/// base name.
pub open spec fn label(e: Entry) -> Seq<char> {
    match e.kind {
        EntryKind::Dir => e.path@ + seq!['/'],
        _ => base_name(e.path@),
    }
}

pub open spec fn tree_line(e: Entry) -> Seq<char> {
    indent(e.depth as nat) + label(e) + seq!['\n']
}

/// The lines of the first `n` entries that are shown.
pub open spec fn tree_text(
    es: Seq<Entry>,
    n: int,
    ex: Option<Seq<char>>,
    ps: Seq<Seq<char>>,
) -> Seq<char>
    decreases n,
{
    if n <= 0 {
        Seq::empty()
    } else {
        tree_text(es, n - 1, ex, ps) + if shown(es, n - 1, ex, ps) {
            tree_line(es[n - 1])
        } else {
            Seq::empty()
        }
    }
}

proof fn lemma_covers_step(es: Seq<Entry>, j: int, i: int)
    requires
        0 <= j < i < es.len(),
    ensures
        covers(es, j, i) == (covers(es, j, i - 1) && es[i].depth > es[j].depth),
{
    if covers(es, j, i - 1) && es[i].depth > es[j].depth {
        assert forall|k: int| j < k <= i implies #[trigger] es[k].depth > es[j].depth by {
            if k < i {
                assert(j < k <= i - 1);
            }
        }
    }
}

fn push_indent(out: &mut String, depth: usize)
    ensures
        final(out)@ == old(out)@ + indent(depth as nat),
{
    let mut k: usize = 0;
    proof {
        reveal_strlit("  ");
        assert(old(out)@ + indent(0) =~= old(out)@);
    }
    while k < depth
        invariant
            k <= depth,
            out@ == old(out)@ + indent(k as nat),
        decreases depth - k,
    {
        out.append("  ");
        proof {
            reveal_strlit("  ");
            assert(indent(k as nat) + "  "@ =~= indent((k + 1) as nat));
        }
        k = k + 1;
    }
}

fn base_name_text(path: &str) -> (r: String)
    ensures
        r@ == base_name(path@),
{
    match file_name(path) {
        Some(n) => n,
        None => String::from_str(path),
    }
}

fn push_tree_line(out: &mut String, e: &Entry)
    ensures
        final(out)@ == old(out)@ + tree_line(*e),
{
    push_indent(out, e.depth);
    match e.kind {
        EntryKind::Dir => {
            out.append(e.path.as_str());
            out.append("/");
            proof {
                reveal_strlit("/");
            }
        },
        _ => {
            let name = base_name_text(e.path.as_str());
            out.append(name.as_str());
        },
    }
    out.append("\n");
    proof {
        reveal_strlit("\n");
        assert(final(out)@ =~= old(out)@ + tree_line(*e));
    }
}

/// The tree section: one line for each entry that is shown, in order. A
/// directory that is left out is left out with all it holds; the root is
/// always shown.
pub fn render_tree(
    entries: &[Entry],
    exclude_dir: Option<&str>,
    ignore_patterns: &[IgnorePattern],
) -> (r: String)
    ensures
        r@ == tree_text(
            entries@,
            entries@.len() as int,
            opt_view(exclude_dir),
            sources(ignore_patterns@),
        ),
{
    let ghost es = entries@;
    let ghost ex = opt_view(exclude_dir);
    let ghost ps = sources(ignore_patterns@);
    let mut out = String::new();
    let mut skip: Option<usize> = None;
    let mut i: usize = 0;
    while i < entries.len()
        invariant
            es == entries@,
            ex == opt_view(exclude_dir),
            ps == sources(ignore_patterns@),
            i <= es.len(),
            out@ == tree_text(es, i as int, ex, ps),
            skip is None ==> forall|j: int|
                0 <= j < i && #[trigger] candidate(es, j, ex, ps) ==> !covers(es, j, i - 1),
            skip matches Some(d) ==> (exists|j: int|
                0 <= j < i && #[trigger] candidate(es, j, ex, ps) && covers(es, j, i - 1)
                    && es[j].depth == d),
            skip matches Some(d) ==> (forall|j: int|
                0 <= j < i && #[trigger] candidate(es, j, ex, ps) && covers(es, j, i - 1)
                    ==> es[j].depth >= d),
        decreases es.len() - i,
    {
        let e = &entries[i];
        let ghost ii = i as int;
        let mut inside = false;
        if let Some(d) = skip {
            if e.depth > d {
                inside = true;
                proof {
                    let j = choose|j: int|
                        0 <= j < i && #[trigger] candidate(es, j, ex, ps) && covers(es, j, i - 1)
                            && es[j].depth == d;
                    lemma_covers_step(es, j, ii);
                    assert(!shown(es, ii, ex, ps));
                }
            } else {
                skip = None;
                proof {
                    assert forall|j: int|
                        0 <= j < i && #[trigger] candidate(es, j, ex, ps) implies !covers(
                        es,
                        j,
                        ii,
                    ) by {
                        lemma_covers_step(es, j, ii);
                    }
                }
            }
        } else {
            proof {
                assert forall|j: int|
                    0 <= j < i && #[trigger] candidate(es, j, ex, ps) implies !covers(
                    es,
                    j,
                    ii,
                ) by {
                    lemma_covers_step(es, j, ii);
                }
            }
        }
        assert(tree_text(es, ii + 1, ex, ps) == tree_text(es, ii, ex, ps) + if shown(
            es,
            ii,
            ex,
            ps,
        ) {
            tree_line(es[ii])
        } else {
            Seq::empty()
        });
        if inside {
            assert(out@ =~= tree_text(es, ii + 1, ex, ps));
            proof {
                assert forall|j: int|
                    0 <= j < i + 1 && #[trigger] candidate(es, j, ex, ps) && covers(es, j, ii)
                        implies es[j].depth >= skip->Some_0 by {
                    if j < ii {
                        lemma_covers_step(es, j, ii);
                    }
                }
                let j = choose|j: int|
                    0 <= j < i && #[trigger] candidate(es, j, ex, ps) && covers(es, j, i - 1)
                        && es[j].depth == skip->Some_0;
                lemma_covers_step(es, j, ii);
            }
        } else if e.depth > 0 && should_ignore(e.path.as_str(), exclude_dir, ignore_patterns) {
            assert(candidate(es, ii, ex, ps));
            assert(covers(es, ii, ii));
            assert(!shown(es, ii, ex, ps));
            assert(out@ =~= tree_text(es, ii + 1, ex, ps));
            skip = Some(e.depth);
            proof {
                assert forall|j: int|
                    0 <= j < i + 1 && #[trigger] candidate(es, j, ex, ps) && covers(es, j, ii)
                        implies es[j].depth >= e.depth by {}
            }
        } else {
            assert(!candidate(es, ii, ex, ps));
            assert(shown(es, ii, ex, ps));
            push_tree_line(&mut out, e);
        }
        i = i + 1;
    }
    out
}

/// A file whose contents follow: a regular file that is not left out. Unlike
/// the tree, this looks at the file alone, not at the directories above it.
pub open spec fn is_listed(e: Entry, ex: Option<Seq<char>>, ps: Seq<Seq<char>>) -> bool {
    e.kind == EntryKind::File && !is_ignored(e.path@, ex, ps)
}

/// The paths of the listed files among `es`, in order.
pub open spec fn listed_files(es: Seq<Entry>, ex: Option<Seq<char>>, ps: Seq<Seq<char>>) -> Seq<
    Seq<char>,
>
    decreases es.len(),
{
    if es.len() == 0 {
        Seq::empty()
    } else {
        let rest = listed_files(es.drop_last(), ex, ps);
        if is_listed(es.last(), ex, ps) {
            rest.push(es.last().path@)
        } else {
            rest
        }
    }
}

/// The paths of the files whose contents follow the tree, in order.
pub fn select_files(
    entries: &[Entry],
    exclude_dir: Option<&str>,
    ignore_patterns: &[IgnorePattern],
) -> (r: Vec<String>)
    ensures
        r@.map_values(|s: String| s@) == listed_files(
            entries@,
            opt_view(exclude_dir),
            sources(ignore_patterns@),
        ),
{
    let ghost es = entries@;
    let ghost ex = opt_view(exclude_dir);
    let ghost ps = sources(ignore_patterns@);
    let mut out: Vec<String> = Vec::new();
    let mut i: usize = 0;
    while i < entries.len()
        invariant
            es == entries@,
            ex == opt_view(exclude_dir),
            ps == sources(ignore_patterns@),
            i <= es.len(),
            out@.map_values(|s: String| s@) == listed_files(es.take(i as int), ex, ps),
        decreases es.len() - i,
    {
        let e = &entries[i];
        assert(es.take(i + 1).drop_last() =~= es.take(i as int));
        assert(es.take(i + 1).last() == *e);
        if e.kind == EntryKind::File && !should_ignore(e.path.as_str(), exclude_dir, ignore_patterns) {
            let ghost before = out@;
            out.push(e.path.clone());
            assert(out@.map_values(|s: String| s@) =~= before.map_values(|s: String| s@).push(e.path@));
        }
        i = i + 1;
    }
    assert(es.take(es.len() as int) =~= es);
    out
}

} // verus!
