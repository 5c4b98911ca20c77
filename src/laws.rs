//! What holds of every snapshot.

use vstd::prelude::*;

use crate::document::{contents_text, document_text, FileText};
use crate::filter::{any_pattern_finds, is_ignored};
use crate::path::path_under;
use crate::walk::{candidate, covers, is_listed, listed_files, shown, tree_text, Entry};

verus! {

/// The files whose sections follow the tree are exactly the regular files of
/// the listing that are not left out.
pub proof fn lemma_listed_files_exactly(es: Seq<Entry>, ex: Option<Seq<char>>, ps: Seq<Seq<char>>)
    ensures
        forall|p: Seq<char>|
            #![trigger listed_files(es, ex, ps).contains(p)]
            listed_files(es, ex, ps).contains(p) <==> exists|i: int|
                0 <= i < es.len() && is_listed(es[i], ex, ps) && #[trigger] es[i].path@ == p,
    decreases es.len(),
{
    if es.len() > 0 {
        let init = es.drop_last();
        let n = es.len() - 1;
        let rest = listed_files(init, ex, ps);
        lemma_listed_files_exactly(init, ex, ps);
        assert forall|p: Seq<char>|
            #![trigger listed_files(es, ex, ps).contains(p)]
            listed_files(es, ex, ps).contains(p) <==> exists|i: int|
                0 <= i < es.len() && is_listed(es[i], ex, ps) && #[trigger] es[i].path@ == p by {
            if listed_files(es, ex, ps).contains(p) {
                if is_listed(es.last(), ex, ps) && es[n].path@ == p {
                    assert(es[n].path@ == p);
                } else {
                    if is_listed(es.last(), ex, ps) {
                        let k = choose|k: int|
                            0 <= k < rest.push(es.last().path@).len() && rest.push(
                                es.last().path@,
                            )[k] == p;
                        assert(k < rest.len());
                        assert(rest[k] == p);
                    }
                    assert(rest.contains(p));
                    let i = choose|i: int|
                        0 <= i < init.len() && is_listed(init[i], ex, ps) && #[trigger] init[i].path@
                            == p;
                    assert(es[i] == init[i]);
                }
            }
            if exists|i: int| 0 <= i < es.len() && is_listed(es[i], ex, ps) && #[trigger] es[i].path@ == p {
                let i = choose|i: int|
                    0 <= i < es.len() && is_listed(es[i], ex, ps) && #[trigger] es[i].path@ == p;
                if i == n {
                    assert(rest.push(es.last().path@)[rest.len() as int] == p);
                } else {
                    assert(init[i] == es[i]);
                    assert(rest.contains(p));
                    let k = choose|k: int| 0 <= k < rest.len() && rest[k] == p;
                    if is_listed(es.last(), ex, ps) {
                        assert(rest.push(es.last().path@)[k] == p);
                    }
                }
            }
        }
    }
}

/// An entry below the root that is left out has no line in the tree, and
/// its path is not among the files whose sections follow.
pub proof fn lemma_left_out_nowhere(
    es: Seq<Entry>,
    ex: Option<Seq<char>>,
    ps: Seq<Seq<char>>,
    i: int,
)
    requires
        0 <= i < es.len(),
        es[i].depth > 0,
        is_ignored(es[i].path@, ex, ps),
    ensures
        !shown(es, i, ex, ps),
        !listed_files(es, ex, ps).contains(es[i].path@),
{
    assert(candidate(es, i, ex, ps));
    assert(covers(es, i, i));
    lemma_listed_files_exactly(es, ex, ps);
}

/// With an excluded directory, no entry below the root that is that
/// directory or lies below it has a line in the tree, and no file whose
/// section follows lies there.
pub proof fn lemma_excluded_subtree_absent(es: Seq<Entry>, d: Seq<char>, ps: Seq<Seq<char>>)
    ensures
        forall|i: int|
            0 <= i < es.len() && es[i].depth > 0 && path_under(#[trigger] es[i].path@, d)
                ==> !shown(es, i, Some(d), ps),
        forall|p: Seq<char>|
            #[trigger] listed_files(es, Some(d), ps).contains(p) ==> !path_under(p, d),
{
    assert forall|i: int|
        0 <= i < es.len() && es[i].depth > 0 && path_under(#[trigger] es[i].path@, d) implies !shown(
        es,
        i,
        Some(d),
        ps,
    ) by {
        lemma_left_out_nowhere(es, Some(d), ps, i);
    }
    lemma_listed_files_exactly(es, Some(d), ps);
}

/// No entry below the root whose path a built-in pattern matches has a line
/// in the tree, and no such file has a section, whether or not a directory
/// is excluded.
pub proof fn lemma_pattern_matches_absent(es: Seq<Entry>, ex: Option<Seq<char>>, ps: Seq<Seq<char>>)
    ensures
        forall|i: int|
            0 <= i < es.len() && es[i].depth > 0 && any_pattern_finds(#[trigger] es[i].path@, ps)
                ==> !shown(es, i, ex, ps),
        forall|p: Seq<char>|
            #[trigger] listed_files(es, ex, ps).contains(p) ==> !any_pattern_finds(p, ps),
{
    assert forall|i: int|
        0 <= i < es.len() && es[i].depth > 0 && any_pattern_finds(#[trigger] es[i].path@, ps)
            implies !shown(es, i, ex, ps) by {
        lemma_left_out_nowhere(es, ex, ps, i);
    }
    lemma_listed_files_exactly(es, ex, ps);
}

/// A snapshot depends on nothing but the listing, the excluded directory,
/// the patterns and the files' texts: two runs over the same tree, listed in
/// the same order, give the same files and the same document.
pub proof fn lemma_snapshot_repeatable(
    es1: Seq<Entry>,
    es2: Seq<Entry>,
    ex: Option<Seq<char>>,
    ps: Seq<Seq<char>>,
    fs1: Seq<FileText>,
    fs2: Seq<FileText>,
)
    requires
        es1 == es2,
        fs1 == fs2,
    ensures
        listed_files(es1, ex, ps) == listed_files(es2, ex, ps),
        document_text(tree_text(es1, es1.len() as int, ex, ps), contents_text(fs1)) == document_text(
            tree_text(es2, es2.len() as int, ex, ps),
            contents_text(fs2),
        ),
{
}

} // verus!
