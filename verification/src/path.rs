//! Unix paths as texts.

use crate::text::{chars_of, join2, join3, same_text, slice_text, texts};
use vstd::prelude::*;

verus! {

/// Whether a path starts at the root.
pub open spec fn is_absolute(p: Seq<char>) -> bool {
    p.len() > 0 && p[0] == '/'
}

/// `rel` seen from `base`: an absolute `rel` stands for itself, another is put behind `base` with
/// one separator between them.
pub open spec fn joined(base: Seq<char>, rel: Seq<char>) -> Seq<char> {
    if is_absolute(rel) {
        rel
    } else if base.len() == 0 || base.last() == '/' {
        base + rel
    } else {
        base + "/"@ + rel
    }
}

/// Joins two paths.
pub fn join(base: &str, rel: &str) -> (r: String)
    ensures
        r@ == joined(base@, rel@),
{
    let b = chars_of(base);
    let c = chars_of(rel);
    if c.len() > 0 && c[0] == '/' {
        rel.to_owned()
    } else if b.len() == 0 || b[b.len() - 1] == '/' {
        join2(base, rel)
    } else {
        join3(base, "/", rel)
    }
}

// ---------------------------------------------------------------------------
// Components
// ---------------------------------------------------------------------------

/// The stretches of `p` between separators, empty ones included, up to the last separator.
pub open spec fn closed_parts(p: Seq<char>) -> Seq<Seq<char>>
    decreases p.len(),
{
    if p.len() == 0 {
        Seq::empty()
    } else if p.last() == '/' {
        closed_parts(p.drop_last()).push(open_part(p.drop_last()))
    } else {
        closed_parts(p.drop_last())
    }
}

/// What stands behind the last separator.
pub open spec fn open_part(p: Seq<char>) -> Seq<char>
    decreases p.len(),
{
    if p.len() == 0 || p.last() == '/' {
        Seq::empty()
    } else {
        open_part(p.drop_last()).push(p.last())
    }
}

/// All stretches of `p` between separators.
pub open spec fn parts(p: Seq<char>) -> Seq<Seq<char>> {
    closed_parts(p).push(open_part(p))
}

/// Whether the part at position `i` counts: empty parts do not, and `.` does only as the first
/// part of a path that does not start at the root.
pub open spec fn counts(part: Seq<char>, i: int) -> bool {
    part.len() > 0 && (part != "."@ || i == 0)
}

/// The parts that count, in order.
pub open spec fn counting(ps: Seq<Seq<char>>) -> Seq<Seq<char>>
    decreases ps.len(),
{
    if ps.len() == 0 {
        Seq::empty()
    } else if counts(ps.last(), ps.len() - 1) {
        counting(ps.drop_last()).push(ps.last())
    } else {
        counting(ps.drop_last())
    }
}

/// The components of a path. Repeated and trailing separators do not matter, nor do `.` parts
/// behind the first; `..` is a component like any other.
pub open spec fn components(p: Seq<char>) -> Seq<Seq<char>> {
    counting(parts(p))
}

/// Whether two paths have the same components, and the same root.
pub open spec fn same_location(p: Seq<char>, q: Seq<char>) -> bool {
    is_absolute(p) == is_absolute(q) && components(p) == components(q)
}

/// The components of a path.
pub fn split(p: &str) -> (r: Vec<String>)
    ensures
        texts(r@) == components(p@),
{
    let cs = chars_of(p);
    let mut out: Vec<String> = Vec::new();
    let mut n: usize = 0;
    let mut from: usize = 0;
    let mut i: usize = 0;
    assert(texts(out@) =~= Seq::<Seq<char>>::empty());
    while i < cs.len()
        invariant
            cs@ == p@,
            from <= i <= cs@.len(),
            n <= i,
            cs@.subrange(from as int, i as int) == open_part(cs@.subrange(0, i as int)),
            n == closed_parts(cs@.subrange(0, i as int)).len(),
            texts(out@) == counting(closed_parts(cs@.subrange(0, i as int))),
        decreases cs@.len() - i,
    {
        let ghost head = cs@.subrange(0, i as int);
        let ghost next = cs@.subrange(0, i + 1);
        assert(next.drop_last() =~= head);
        if cs[i] == '/' {
            let ghost ps = closed_parts(next);
            assert(ps.drop_last() =~= closed_parts(head));
            add_part(&mut out, slice_text(&cs, from, i), n);
            n = n + 1;
            from = i + 1;
            assert(cs@.subrange(from as int, i + 1) =~= Seq::<char>::empty());
        } else {
            assert(cs@.subrange(from as int, i + 1) =~= cs@.subrange(from as int, i as int).push(
                cs@[i as int],
            ));
        }
        i = i + 1;
    }
    assert(cs@.subrange(0, i as int) =~= p@);
    assert(parts(p@).drop_last() =~= closed_parts(p@));
    add_part(&mut out, slice_text(&cs, from, i), n);
    out
}

/// Puts the part at position `n` behind the components, if it counts.
fn add_part(out: &mut Vec<String>, part: String, n: usize)
    ensures
        texts(final(out)@) == if counts(part@, n as int) {
            texts(old(out)@).push(part@)
        } else {
            texts(old(out)@)
        },
{
    if part.unicode_len() > 0 && (!same_text(part.as_str(), ".") || n == 0) {
        let ghost was = out@;
        let ghost p = part@;
        out.push(part);
        assert(texts(out@) =~= texts(was).push(p));
    }
}

/// Whether two paths name the same place.
pub fn same_path(p: &str, q: &str) -> (r: bool)
    ensures
        r == same_location(p@, q@),
{
    let a = chars_of(p);
    let b = chars_of(q);
    if (a.len() > 0 && a[0] == '/') != (b.len() > 0 && b[0] == '/') {
        return false;
    }
    let x = split(p);
    let y = split(q);
    if x.len() != y.len() {
        assert(texts(x@).len() != texts(y@).len());
        return false;
    }
    let mut i: usize = 0;
    while i < x.len()
        invariant
            i <= x@.len(),
            x@.len() == y@.len(),
            texts(x@) == components(p@),
            texts(y@) == components(q@),
            forall|j: int| 0 <= j < i ==> (#[trigger] x@[j])@ == y@[j]@,
        decreases x@.len() - i,
    {
        if !same_text(x[i].as_str(), y[i].as_str()) {
            assert(texts(x@)[i as int] != texts(y@)[i as int]);
            return false;
        }
        i = i + 1;
    }
    assert(texts(x@) =~= texts(y@));
    true
}

/// The last component of a path, unless it is `.` or `..`.
pub open spec fn last_name(p: Seq<char>) -> Option<Seq<char>> {
    let cs = components(p);
    if cs.len() == 0 || cs.last() == "."@ || cs.last() == ".."@ {
        None
    } else {
        Some(cs.last())
    }
}

/// The name that a path ends in.
pub fn file_name(p: &str) -> (r: Option<String>)
    ensures
        (match r {
            Some(n) => Some(n@),
            None => None,
        }) == last_name(p@),
{
    let cs = split(p);
    if cs.len() == 0 {
        return None;
    }
    let last = &cs[cs.len() - 1];
    assert(last@ == texts(cs@).last());
    if same_text(last.as_str(), ".") || same_text(last.as_str(), "..") {
        None
    } else {
        Some(last.clone())
    }
}

// ---------------------------------------------------------------------------
// Laws
// ---------------------------------------------------------------------------

/// A path that does not start at the root is put behind the directory: the result starts with the
/// directory, ends with the path, and has nothing between them but one separator where the
/// directory does not bring its own. A path that starts at the root stands for itself.
pub proof fn joining_puts_a_path_behind(base: Seq<char>, rel: Seq<char>)
    ensures
        rel.len() > 0 && rel[0] == '/' ==> joined(base, rel) == rel,
        !(rel.len() > 0 && rel[0] == '/') ==> {
            let r = joined(base, rel);
            let gap: int = if base.len() > 0 && base[base.len() - 1] != '/' {
                1
            } else {
                0
            };
            &&& r.len() == base.len() + gap + rel.len()
            &&& r.subrange(0, base.len() as int) == base
            &&& r.subrange(base.len() + gap, r.len() as int) == rel
            &&& gap == 1 ==> r[base.len() as int] == '/'
        },
{
    reveal_strlit("/");
    let r = joined(base, rel);
    if !(rel.len() > 0 && rel[0] == '/') {
        assert(r.subrange(0, base.len() as int) =~= base);
        if base.len() == 0 || base[base.len() - 1] == '/' {
            assert(r.subrange(base.len() as int, r.len() as int) =~= rel);
        } else {
            assert(r.subrange(base.len() + 1int, r.len() as int) =~= rel);
            assert("/"@[0] == '/');
        }
    }
}

/// To go down one path and then another is to go down both at once.
pub proof fn joining_is_associative(a: Seq<char>, b: Seq<char>, c: Seq<char>)
    requires
        b.len() > 0,
    ensures
        joined(joined(a, b), c) == joined(a, joined(b, c)),
{
    reveal_strlit("/");
    assert(joined(joined(a, b), c) =~= joined(a, joined(b, c)));
}

/// The parts of a path with a separator and a further part behind it.
proof fn parts_grow(p: Seq<char>, name: Seq<char>)
    requires
        forall|i: int| 0 <= i < name.len() ==> #[trigger] name[i] != '/',
    ensures
        parts(p + seq!['/'] + name) == parts(p).push(name),
    decreases name.len(),
{
    let x = p + seq!['/'] + name;
    if name.len() == 0 {
        assert(x.drop_last() =~= p);
        assert(x.last() == '/');
        assert(closed_parts(x) == parts(p));
        assert(open_part(x) =~= name);
    } else {
        let rest = name.drop_last();
        assert forall|i: int| 0 <= i < rest.len() implies #[trigger] rest[i] != '/' by {
            assert(rest[i] == name[i]);
        }
        parts_grow(p, rest);
        assert(x.drop_last() =~= p + seq!['/'] + rest);
        assert(name[name.len() - 1] != '/');
        assert(closed_parts(x) == closed_parts(x.drop_last()));
        assert(parts(x.drop_last()).drop_last() =~= closed_parts(x));
        assert(parts(p).push(rest).drop_last() =~= parts(p));
        assert(open_part(x.drop_last()) == parts(x.drop_last()).last());
        assert(open_part(x) =~= name);
        assert(parts(x) =~= parts(p).push(name));
    }
}

/// A name behind a path is one more component of it. An empty name is none, so that a trailing
/// separator changes nothing; nor is a dot.
pub proof fn names_are_components(p: Seq<char>, name: Seq<char>)
    requires
        forall|i: int| 0 <= i < name.len() ==> #[trigger] name[i] != '/',
    ensures
        components(p + seq!['/'] + name) == (if name.len() == 0 || name == seq!['.'] {
            components(p)
        } else {
            components(p).push(name)
        }),
{
    reveal_strlit(".");
    parts_grow(p, name);
    let ps = parts(p).push(name);
    assert(ps.drop_last() =~= parts(p));
    assert("."@ =~= seq!['.']);
}

/// A path without any separator has itself as its only component, and an empty one none.
pub proof fn one_name_is_one_component(name: Seq<char>)
    requires
        forall|i: int| 0 <= i < name.len() ==> #[trigger] name[i] != '/',
    ensures
        components(name) == (if name.len() == 0 {
            Seq::<Seq<char>>::empty()
        } else {
            seq![name]
        }),
{
    one_part(name);
    let ps = parts(name);
    assert(ps.drop_last() =~= Seq::<Seq<char>>::empty());
    assert(counting(ps.drop_last()) =~= Seq::<Seq<char>>::empty());
    assert(components(name) =~= (if name.len() == 0 {
        Seq::<Seq<char>>::empty()
    } else {
        seq![name]
    }));
}

/// A path without any separator is one part.
proof fn one_part(name: Seq<char>)
    requires
        forall|i: int| 0 <= i < name.len() ==> #[trigger] name[i] != '/',
    ensures
        parts(name) == seq![name],
    decreases name.len(),
{
    if name.len() > 0 {
        let rest = name.drop_last();
        assert forall|i: int| 0 <= i < rest.len() implies #[trigger] rest[i] != '/' by {
            assert(rest[i] == name[i]);
        }
        one_part(rest);
        assert(name[name.len() - 1] != '/');
        assert(closed_parts(rest) =~= parts(rest).drop_last());
        assert(closed_parts(name) =~= Seq::<Seq<char>>::empty());
        assert(open_part(rest) == parts(rest).last());
        assert(open_part(name) =~= name);
    } else {
        assert(open_part(name) =~= name);
    }
    assert(parts(name) =~= seq![name]);
}

/// A path that ends in a name goes by that name, whatever stands before it; one that ends in a dot
/// or in two has none of its own.
pub proof fn paths_go_by_their_last_name(p: Seq<char>, name: Seq<char>)
    requires
        name.len() > 0,
        forall|i: int| 0 <= i < name.len() ==> #[trigger] name[i] != '/',
        name != seq!['.'],
    ensures
        last_name(p + seq!['/'] + name) == (if name == seq!['.', '.'] {
            None::<Seq<char>>
        } else {
            Some(name)
        }),
        last_name(p + seq!['/'] + name + seq!['/']) == last_name(p + seq!['/'] + name),
{
    reveal_strlit(".");
    reveal_strlit("..");
    assert("."@ =~= seq!['.']);
    assert(".."@ =~= seq!['.', '.']);
    names_are_components(p, name);
    let q = p + seq!['/'] + name;
    let none = Seq::<char>::empty();
    names_are_components(q, none);
    assert(q + seq!['/'] + none =~= q + seq!['/']);
    assert(components(p).push(name).last() == name);
}

/// Two names in one directory are the same place exactly if they are the same name; a trailing
/// separator makes no difference, nor does a dot.
pub proof fn places_are_told_apart(p: Seq<char>, a: Seq<char>, b: Seq<char>)
    requires
        a.len() > 0,
        b.len() > 0,
        a != seq!['.'],
        b != seq!['.'],
        forall|i: int| 0 <= i < a.len() ==> #[trigger] a[i] != '/',
        forall|i: int| 0 <= i < b.len() ==> #[trigger] b[i] != '/',
    ensures
        same_location(p + seq!['/'] + a, p + seq!['/'] + b) <==> a == b,
        !same_location(p + seq!['/'] + a, p),
        p.len() > 0 ==> same_location(p + seq!['/'], p),
        p.len() > 0 ==> same_location(p + seq!['/'] + seq!['.'], p),
        p.len() > 0 && p[0] != '/' ==> !same_location(seq!['/'] + p, p),
{
    names_are_components(p, a);
    names_are_components(p, b);
    let none = Seq::<char>::empty();
    names_are_components(p, none);
    names_are_components(p, seq!['.']);
    assert(p + seq!['/'] + none =~= p + seq!['/']);
    let x = components(p).push(a);
    let y = components(p).push(b);
    assert(x.last() == a && y.last() == b);
    assert(x.len() == components(p).len() + 1);
    if p.len() > 0 {
        assert((p + seq!['/'])[0] == p[0]);
        assert((p + seq!['/'] + seq!['.'])[0] == p[0]);
        assert((seq!['/'] + p)[0] == '/');
    }
    let u = p + seq!['/'] + a;
    let v = p + seq!['/'] + b;
    if p.len() > 0 {
        assert(u[0] == p[0] && v[0] == p[0]);
    } else {
        assert(u[0] == '/' && v[0] == '/');
    }
}

} // verus!
