//! Paths as text: their components, ancestry, base names and extensions.

use vstd::prelude::*;
use vstd::string::StrSliceExecFns;
use vstd::string::StringExecFns;

verus! {

/// Adds `piece` to the components read so far, unless it is empty or `.`.
pub open spec fn keep_piece(done: Seq<Seq<char>>, piece: Seq<char>) -> Seq<Seq<char>> {
    if piece.len() == 0 || piece == seq!['.'] {
        done
    } else {
        done.push(piece)
    }
}

/// Reads `s` from left to right: the components completed so far, and the
/// piece after the last slash.
pub open spec fn scan_components(s: Seq<char>) -> (Seq<Seq<char>>, Seq<char>)
    decreases s.len(),
{
    if s.len() == 0 {
        (Seq::empty(), Seq::empty())
    } else {
        let (done, piece) = scan_components(s.drop_last());
        if s.last() == '/' {
            (keep_piece(done, piece), Seq::empty())
        } else {
            (done, piece.push(s.last()))
        }
    }
}

/// The components of a path: the pieces between slashes, with empty pieces
/// and `.` left out (`./src//a` has the components `src`, `a`).
pub open spec fn components(s: Seq<char>) -> Seq<Seq<char>> {
    keep_piece(scan_components(s).0, scan_components(s).1)
}

pub open spec fn is_absolute(s: Seq<char>) -> bool {
    s.len() > 0 && s[0] == '/'
}

/// `p` is `d` or lies below it: both are absolute or both relative, and the
/// components of `d` begin those of `p` (`foo2` is not below `foo`).
pub open spec fn path_under(p: Seq<char>, d: Seq<char>) -> bool {
    is_absolute(p) == is_absolute(d) && components(d).is_prefix_of(components(p))
}

/// The last component of a path, unless there is none or it is `..`.
pub open spec fn file_name_of(p: Seq<char>) -> Option<Seq<char>> {
    let c = components(p);
    if c.len() > 0 && c.last() != seq!['.', '.'] {
        Some(c.last())
    } else {
        None
    }
}

/// The index of the last `.` in `name`, or -1.
pub open spec fn last_dot(name: Seq<char>) -> int
    decreases name.len(),
{
    if name.len() == 0 {
        -1
    } else if name.last() == '.' {
        name.len() - 1
    } else {
        last_dot(name.drop_last())
    }
}

/// What follows the last `.` of a base name; none where the name has no `.`
/// but at its start (`.bashrc`).
pub open spec fn extension_of(name: Seq<char>) -> Option<Seq<char>> {
    let k = last_dot(name);
    if k <= 0 {
        None
    } else {
        Some(name.subrange(k + 1, name.len() as int))
    }
}

/// The extension of the base name of `p`, if both exist.
pub open spec fn path_extension(p: Seq<char>) -> Option<Seq<char>> {
    match file_name_of(p) {
        Some(n) => extension_of(n),
        None => None,
    }
}

/// Each range cuts the component of the same index out of `s`.
pub open spec fn ranges_cut(s: Seq<char>, r: Seq<(usize, usize)>, cs: Seq<Seq<char>>) -> bool {
    &&& r.len() == cs.len()
    &&& forall|i: int|
        #![trigger r[i]]
        0 <= i < r.len() ==> r[i].0 <= r[i].1 <= s.len() && s.subrange(r[i].0 as int, r[i].1 as int)
            == cs[i]
}

proof fn lemma_last_dot_bounds(name: Seq<char>)
    ensures
        -1 <= last_dot(name) < name.len(),
        last_dot(name) >= 0 ==> name[last_dot(name)] == '.',
    decreases name.len(),
{
    if name.len() > 0 && name.last() != '.' {
        lemma_last_dot_bounds(name.drop_last());
    }
}

/// Whether the characters `a..b` of `s` are empty or a single `.`.
fn is_skipped_piece(s: &str, a: usize, b: usize) -> (r: bool)
    requires
        a <= b <= s@.len(),
    ensures
        r == (s@.subrange(a as int, b as int).len() == 0 || s@.subrange(a as int, b as int)
            == seq!['.']),
{
    if a == b {
        true
    } else if b == a + 1 && s.get_char(a) == '.' {
        assert(s@.subrange(a as int, b as int) =~= seq!['.']);
        true
    } else {
        assert(s@.subrange(a as int, b as int).len() != 1 ==> s@.subrange(a as int, b as int)
            != seq!['.']);
        assert(s@.subrange(a as int, b as int).len() == 1 ==> s@.subrange(a as int, b as int)[0]
            != '.');
        false
    }
}

/// The character ranges of the components of `s`.
fn component_ranges(s: &str) -> (r: Vec<(usize, usize)>)
    ensures
        ranges_cut(s@, r@, components(s@)),
{
    let n = s.unicode_len();
    let mut done: Vec<(usize, usize)> = Vec::new();
    let mut start: usize = 0;
    let mut i: usize = 0;
    while i < n
        invariant
            n == s@.len(),
            start <= i <= n,
            ranges_cut(s@, done@, scan_components(s@.take(i as int)).0),
            s@.subrange(start as int, i as int) == scan_components(s@.take(i as int)).1,
        decreases n - i,
    {
        let c = s.get_char(i);
        assert(s@.take(i + 1).drop_last() =~= s@.take(i as int));
        assert(s@.take(i + 1).last() == c);
        if c == '/' {
            if !is_skipped_piece(s, start, i) {
                done.push((start, i));
            }
            start = i + 1;
            assert(s@.subrange(start as int, i + 1) =~= Seq::<char>::empty());
        } else {
            assert(s@.subrange(start as int, i + 1) =~= s@.subrange(start as int, i as int).push(c));
        }
        i = i + 1;
    }
    assert(s@.take(n as int) =~= s@);
    if !is_skipped_piece(s, start, n) {
        done.push((start, n));
    }
    done
}

/// Whether the characters `ra` of `a` are the characters `rb` of `b`.
fn same_text(a: &str, ra: (usize, usize), b: &str, rb: (usize, usize)) -> (r: bool)
    requires
        ra.0 <= ra.1 <= a@.len(),
        rb.0 <= rb.1 <= b@.len(),
    ensures
        r == (a@.subrange(ra.0 as int, ra.1 as int) == b@.subrange(rb.0 as int, rb.1 as int)),
{
    let ghost sa = a@.subrange(ra.0 as int, ra.1 as int);
    let ghost sb = b@.subrange(rb.0 as int, rb.1 as int);
    if ra.1 - ra.0 != rb.1 - rb.0 {
        assert(sa.len() != sb.len());
        return false;
    }
    let len = ra.1 - ra.0;
    let mut k: usize = 0;
    while k < len
        invariant
            len == ra.1 - ra.0 == rb.1 - rb.0,
            ra.0 <= ra.1 <= a@.len(),
            rb.0 <= rb.1 <= b@.len(),
            sa == a@.subrange(ra.0 as int, ra.1 as int),
            sb == b@.subrange(rb.0 as int, rb.1 as int),
            k <= len,
            forall|j: int| 0 <= j < k ==> sa[j] == sb[j],
        decreases len - k,
    {
        if a.get_char(ra.0 + k) != b.get_char(rb.0 + k) {
            assert(sa[k as int] != sb[k as int]);
            return false;
        }
        k = k + 1;
    }
    assert(sa =~= sb);
    true
}

fn starts_with_slash(s: &str) -> (r: bool)
    ensures
        r == is_absolute(s@),
{
    s.unicode_len() > 0 && s.get_char(0) == '/'
}

/// Whether `path` is `base` or lies below it, component by component.
pub fn path_starts_with(path: &str, base: &str) -> (r: bool)
    ensures
        r == path_under(path@, base@),
{
    if starts_with_slash(path) != starts_with_slash(base) {
        return false;
    }
    let cp = component_ranges(path);
    let cb = component_ranges(base);
    let ghost pc = components(path@);
    let ghost bc = components(base@);
    if cb.len() > cp.len() {
        assert(!bc.is_prefix_of(pc));
        return false;
    }
    let mut i: usize = 0;
    while i < cb.len()
        invariant
            pc == components(path@),
            bc == components(base@),
            is_absolute(path@) == is_absolute(base@),
            ranges_cut(path@, cp@, pc),
            ranges_cut(base@, cb@, bc),
            cb.len() <= cp.len(),
            i <= cb.len(),
            forall|j: int| 0 <= j < i ==> pc[j] == bc[j],
        decreases cb.len() - i,
    {
        let p = cp[i];
        let b = cb[i];
        assert(cp@[i as int] == p && cb@[i as int] == b);
        assert(path@.subrange(p.0 as int, p.1 as int) == pc[i as int]);
        assert(base@.subrange(b.0 as int, b.1 as int) == bc[i as int]);
        if !same_text(path, p, base, b) {
            assert(!bc.is_prefix_of(pc)) by {
                if bc.is_prefix_of(pc) {
                    assert(bc == pc.subrange(0, bc.len() as int));
                    assert(bc[i as int] == pc.subrange(0, bc.len() as int)[i as int]);
                    assert(pc.subrange(0, bc.len() as int)[i as int] == pc[i as int]);
                    assert(false);
                }
            }
            return false;
        }
        i = i + 1;
    }
    assert(bc =~= pc.subrange(0, bc.len() as int));
    true
}

/// The character range of the base name of `path`.
fn file_name_range(path: &str) -> (r: Option<(usize, usize)>)
    ensures
        r is Some == file_name_of(path@) is Some,
        r matches Some(x) ==> x.0 <= x.1 <= path@.len() && file_name_of(path@) == Some(
            path@.subrange(x.0 as int, x.1 as int),
        ),
{
    let cs = component_ranges(path);
    let ghost c = components(path@);
    if cs.len() == 0 {
        return None;
    }
    let last = cs[cs.len() - 1];
    assert(cs@[cs.len() - 1] == last);
    let a = last.0;
    let b = last.1;
    if b - a == 2 && path.get_char(a) == '.' && path.get_char(a + 1) == '.' {
        assert(path@.subrange(a as int, b as int) =~= seq!['.', '.']);
        return None;
    }
    assert(path@.subrange(a as int, b as int) != seq!['.', '.']) by {
        if path@.subrange(a as int, b as int) == seq!['.', '.'] {
            assert(path@.subrange(a as int, b as int)[0] == '.');
            assert(path@.subrange(a as int, b as int)[1] == '.');
        }
    }
    Some(last)
}

/// The base name of `path`: its last component, unless it has none or that
/// is `..`.
pub fn file_name(path: &str) -> (r: Option<String>)
    ensures
        r is Some == file_name_of(path@) is Some,
        r matches Some(n) ==> file_name_of(path@) == Some(n@),
{
    match file_name_range(path) {
        Some(x) => Some(String::from_str(path.substring_char(x.0, x.1))),
        None => None,
    }
}

/// The extension of the base name of `path`: what follows its last `.`,
/// where that `.` is not the name's first character.
pub fn get_extension(path: &str) -> (r: Option<String>)
    ensures
        r is Some == path_extension(path@) is Some,
        r matches Some(e) ==> path_extension(path@) == Some(e@),
{
    let x = match file_name_range(path) {
        Some(x) => x,
        None => return None,
    };
    let ghost name = path@.subrange(x.0 as int, x.1 as int);
    let mut k: usize = x.1;
    assert(name.take(k - x.0) =~= name);
    while k > x.0
        invariant
            x.0 <= k <= x.1 <= path@.len(),
            name == path@.subrange(x.0 as int, x.1 as int),
            last_dot(name) == last_dot(name.take(k - x.0)),
        ensures
            x.0 <= k <= x.1,
            last_dot(name) == last_dot(name.take(k - x.0)),
            k > x.0 ==> path@[k - 1] == '.',
        decreases k,
    {
        let c = path.get_char(k - 1);
        let ghost t = name.take(k - x.0);
        assert(t.drop_last() =~= name.take(k - 1 - x.0));
        assert(t.last() == c);
        if c == '.' {
            break;
        }
        k = k - 1;
    }
    proof {
        lemma_last_dot_bounds(name.take(k - x.0));
        if k == x.0 {
            assert(name.take(0).len() == 0);
        } else {
            assert(name.take(k - x.0).last() == '.');
        }
    }
    if k - x.0 <= 1 {
        return None;
    }
    assert(name.subrange(k - x.0, name.len() as int) =~= path@.subrange(k as int, x.1 as int));
    Some(String::from_str(path.substring_char(k, x.1)))
}

} // verus!
