//! Unix path strings, read component by component.
//!
//! A path is split at `/`. Empty pieces are dropped, and so is `.` except as
//! the first piece of a relative path. A leading `/` yields the root
//! component, written `/`.
use vstd::prelude::*;

use crate::text::{chars_eq, chars_of, concat2, concat3, owned, split_chars, split_on, string_from_range};

verus! {

/// The root component.
pub open spec fn root_component() -> Seq<char> {
    seq!['/']
}

/// Whether the `i`-th piece of a split path stays as a component.
pub open spec fn keeps_piece(piece: Seq<char>, i: int) -> bool {
    piece.len() > 0 && (piece != seq!['.'] || i == 0)
}

/// The kept pieces of `pieces`, from index `i` on.
pub open spec fn kept_from(pieces: Seq<Seq<char>>, i: int) -> Seq<Seq<char>>
    decreases pieces.len() - i,
{
    if i < 0 || i >= pieces.len() {
        Seq::empty()
    } else if keeps_piece(pieces[i], i) {
        seq![pieces[i]] + kept_from(pieces, i + 1)
    } else {
        kept_from(pieces, i + 1)
    }
}

/// Whether `s` is an absolute path.
pub open spec fn is_absolute(s: Seq<char>) -> bool {
    s.len() > 0 && s[0] == '/'
}

/// The components of the path `s`.
pub open spec fn components(s: Seq<char>) -> Seq<Seq<char>> {
    (if is_absolute(s) {
        seq![root_component()]
    } else {
        Seq::empty()
    }) + kept_from(split_on(s, '/'), 0)
}

/// Whether a component names a file or directory (it is not the root, `.`
/// or `..`).
pub open spec fn is_normal_component(c: Seq<char>) -> bool {
    c != root_component() && c != seq!['.'] && c != seq!['.', '.']
}

/// The last component of `s` when it is a normal one.
pub open spec fn file_name(s: Seq<char>) -> Option<Seq<char>> {
    let c = components(s);
    if c.len() > 0 && is_normal_component(c.last()) {
        Some(c.last())
    } else {
        None
    }
}

/// Whether `s` has a parent: it has a last component and that is not the root.
pub open spec fn has_parent(s: Seq<char>) -> bool {
    let c = components(s);
    c.len() > 0 && c.last() != root_component()
}

/// Whether the components of `base` are a prefix of those of `path`.
pub open spec fn starts_with(path: Seq<char>, base: Seq<char>) -> bool {
    let p = components(path);
    let b = components(base);
    b.len() <= p.len() && p.subrange(0, b.len() as int) == b
}

/// `name` appended to `base`; an absolute `name` replaces `base`.
pub open spec fn join_path(base: Seq<char>, name: Seq<char>) -> Seq<char> {
    if is_absolute(name) {
        name
    } else if base.len() == 0 || base.last() == '/' {
        base + name
    } else {
        base + seq!['/'] + name
    }
}

/// The components of the path `s`.
pub fn path_components(s: &str) -> (r: Vec<Vec<char>>)
    ensures
        r@.len() == components(s@).len(),
        forall|k: int| 0 <= k < r@.len() ==> #[trigger] r@[k]@ == components(s@)[k],
{
    let chars = chars_of(s);
    let pieces = split_chars(&chars, '/');
    let ghost ps = split_on(s@, '/');
    let mut out: Vec<Vec<char>> = Vec::new();
    let absolute = chars.len() > 0 && chars[0] == '/';
    if absolute {
        let mut root: Vec<char> = Vec::new();
        root.push('/');
        assert(root@ =~= root_component());
        out.push(root);
    }
    let ghost prefix: Seq<Seq<char>> = if absolute {
        seq![root_component()]
    } else {
        Seq::empty()
    };
    let mut i: usize = 0;
    while i < pieces.len()
        invariant
            pieces@.len() == ps.len(),
            forall|k: int| 0 <= k < pieces@.len() ==> #[trigger] pieces@[k]@ == ps[k],
            i <= pieces.len(),
            out@.len() + kept_from(ps, i as int).len() == prefix.len() + kept_from(ps, 0).len(),
            forall|k: int|
                0 <= k < out@.len() ==> #[trigger] out@[k]@ == (prefix + kept_from(ps, 0))[k],
            forall|k: int|
                0 <= k < kept_from(ps, i as int).len() ==> (prefix + kept_from(ps, 0))[out@.len()
                    + k] == #[trigger] kept_from(ps, i as int)[k],
        decreases pieces.len() - i,
    {
        let piece = &pieces[i];
        let nonempty = piece.len() > 0;
        let is_dot = piece.len() == 1 && piece[0] == '.';
        assert(is_dot == (piece@ == seq!['.'])) by {
            if piece@ == seq!['.'] {
                assert(piece@[0] == '.');
            }
            if is_dot {
                assert(piece@ =~= seq!['.']);
            }
        }
        if nonempty && (!is_dot || i == 0) {
            let copy = piece.clone();
            assert(copy@ == ps[i as int]);
            assert(kept_from(ps, i as int)[0] == ps[i as int]);
            out.push(copy);
            assert forall|k: int| 0 <= k < kept_from(ps, i + 1).len() implies (prefix + kept_from(
                ps,
                0,
            ))[out@.len() + k] == #[trigger] kept_from(ps, i + 1)[k] by {
                assert(kept_from(ps, i as int)[k + 1] == kept_from(ps, i + 1)[k]);
            }
        }
        i = i + 1;
    }
    assert(prefix + kept_from(ps, 0) == components(s@));
    out
}

/// Whether two component lists agree on their first `n` entries.
fn components_prefix(p: &Vec<Vec<char>>, b: &Vec<Vec<char>>) -> (r: bool)
    ensures
        r == (b@.len() <= p@.len() && forall|k: int| 0 <= k < b@.len() ==> p@[k]@ == b@[k]@),
{
    if b.len() > p.len() {
        return false;
    }
    let mut k: usize = 0;
    while k < b.len()
        invariant
            b@.len() <= p@.len(),
            k <= b.len(),
            forall|m: int| 0 <= m < k ==> p@[m]@ == b@[m]@,
        decreases b.len() - k,
    {
        if !chars_eq(&p[k], &b[k]) {
            return false;
        }
        k = k + 1;
    }
    true
}

/// Whether `path` lies under `base`, component by component.
pub fn path_starts_with(path: &str, base: &str) -> (r: bool)
    ensures
        r == starts_with(path@, base@),
{
    let p = path_components(path);
    let b = path_components(base);
    let r = components_prefix(&p, &b);
    proof {
        let pc = components(path@);
        let bc = components(base@);
        if r {
            assert forall|k: int| 0 <= k < bc.len() implies pc.subrange(0, bc.len() as int)[k]
                == bc[k] by {
                assert(p@[k]@ == pc[k]);
                assert(b@[k]@ == bc[k]);
            }
            assert(pc.subrange(0, bc.len() as int) =~= bc);
        }
        if starts_with(path@, base@) {
            assert forall|k: int| 0 <= k < b@.len() implies p@[k]@ == b@[k]@ by {
                assert(pc.subrange(0, bc.len() as int)[k] == pc[k]);
            }
        }
    }
    r
}

/// Whether the component `c` is a normal one.
fn is_normal_exec(c: &Vec<char>) -> (r: bool)
    ensures
        r == is_normal_component(c@),
{
    let is_root = c.len() == 1 && c[0] == '/';
    let is_dot = c.len() == 1 && c[0] == '.';
    let is_dotdot = c.len() == 2 && c[0] == '.' && c[1] == '.';
    proof {
        if c@ == root_component() {
            assert(c@[0] == '/');
        }
        if is_root {
            assert(c@ =~= root_component());
        }
        if c@ == seq!['.'] {
            assert(c@[0] == '.');
        }
        if is_dot {
            assert(c@ =~= seq!['.']);
        }
        if c@ == seq!['.', '.'] {
            assert(c@[0] == '.' && c@[1] == '.');
        }
        if is_dotdot {
            assert(c@ =~= seq!['.', '.']);
        }
    }
    !is_root && !is_dot && !is_dotdot
}

/// The final component of `s`, if it names a file or directory.
pub fn path_file_name(s: &str) -> (r: Option<String>)
    ensures
        match r {
            Some(n) => file_name(s@) == Some(n@),
            None => file_name(s@) is None,
        },
{
    let comps = path_components(s);
    if comps.len() == 0 {
        return None;
    }
    let last = &comps[comps.len() - 1];
    if is_normal_exec(last) {
        Some(string_from_range(last, 0, last.len()))
    } else {
        None
    }
}

/// Whether `s` has a parent path.
pub fn path_has_parent(s: &str) -> (r: bool)
    ensures
        r == has_parent(s@),
{
    let comps = path_components(s);
    if comps.len() == 0 {
        return false;
    }
    let last = &comps[comps.len() - 1];
    let is_root = last.len() == 1 && last[0] == '/';
    proof {
        if last@ == root_component() {
            assert(last@[0] == '/');
        }
        if is_root {
            assert(last@ =~= root_component());
        }
    }
    !is_root
}

/// `name` appended to `base` with one separator.
pub fn join_path_str(base: &str, name: &str) -> (r: String)
    ensures
        r@ == join_path(base@, name@),
{
    let n = chars_of(name);
    if n.len() > 0 && n[0] == '/' {
        return owned(name);
    }
    let b = chars_of(base);
    if b.len() == 0 || b[b.len() - 1] == '/' {
        concat2(base, name)
    } else {
        proof {
            reveal_strlit("/");
        }
        concat3(base, "/", name)
    }
}

} // verus!
