//! Paths as lists of components, without any access to the file system. A path keeps the text
//! that it was written as, which is how it is shown; paths with the same components are equal,
//! however they are written.

use crate::text::{clone_strings, join, joined, opt_view, same, split, split_on, views};
use vstd::prelude::*;

verus! {

/// The component that stands for the root of the file system.
pub open spec fn root_part() -> Seq<char> {
    seq!['/']
}

/// The component that stands for the current directory.
pub open spec fn here_part() -> Seq<char> {
    seq!['.']
}

/// The component that stands for the parent directory.
pub open spec fn up_part() -> Seq<char> {
    seq!['.', '.']
}

/// The pieces of a path that name something: empty pieces are dropped, and so is
/// a `.` anywhere but at the very beginning.
pub open spec fn named_pieces(pieces: Seq<Seq<char>>) -> Seq<Seq<char>>
    decreases pieces.len(),
{
    if pieces.len() == 0 {
        Seq::empty()
    } else {
        let before = named_pieces(pieces.drop_last());
        if pieces.last().len() == 0 || (pieces.last() == here_part() && pieces.len() > 1) {
            before
        } else {
            before.push(pieces.last())
        }
    }
}

/// The components of a path written as text.
pub open spec fn components(text: Seq<char>) -> Seq<Seq<char>> {
    let names = named_pieces(split_on(text, '/'));
    if text.len() > 0 && text[0] == '/' {
        seq![root_part()] + names
    } else {
        names
    }
}

/// True for a path that begins at the root.
pub open spec fn is_absolute_path(path: Seq<Seq<char>>) -> bool {
    path.len() > 0 && path[0] == root_part()
}

/// `rel` seen from `base`; an absolute `rel` stands for itself.
pub open spec fn join_path(base: Seq<Seq<char>>, rel: Seq<Seq<char>>) -> Seq<Seq<char>> {
    if is_absolute_path(rel) {
        rel
    } else if base.len() > 0 && rel.len() > 0 && rel[0] == here_part() {
        base + rel.drop_first()
    } else {
        base + rel
    }
}

/// The path without its last component. The root and the empty path have no parent.
pub open spec fn parent_path(path: Seq<Seq<char>>) -> Option<Seq<Seq<char>>> {
    if path.len() == 0 || path.last() == root_part() {
        None
    } else {
        Some(path.drop_last())
    }
}

/// The last component, if it is a name.
pub open spec fn path_file_name(path: Seq<Seq<char>>) -> Option<Seq<char>> {
    if path.len() == 0 || path.last() == root_part() || path.last() == here_part() || path.last()
        == up_part() {
        None
    } else {
        Some(path.last())
    }
}

/// A component other than the root: not empty and without a slash.
pub open spec fn is_plain_part(part: Seq<char>) -> bool {
    part.len() > 0 && !part.contains('/')
}

/// What holds of the components of every path: the root and `.` stand only at the
/// beginning, and every other component is a name or `..`.
pub open spec fn is_path(path: Seq<Seq<char>>) -> bool {
    forall|i: int|
        0 <= i < path.len() ==> {
            ||| i == 0 && path[i] == root_part()
            ||| is_plain_part(#[trigger] path[i]) && (i > 0 ==> path[i] != here_part())
        }
}

/// The path itself, then its parent, then the parent of that, and so on.
pub open spec fn path_ancestors(path: Seq<Seq<char>>) -> Seq<Seq<Seq<char>>>
    decreases path.len(),
{
    match parent_path(path) {
        None => seq![path],
        Some(up) => if up.len() < path.len() {
            seq![path] + path_ancestors(up)
        } else {
            seq![path]
        },
    }
}

/// How a path is written that is joined from two: an absolute one stands for itself, and
/// otherwise there is a slash between them.
pub open spec fn joined_text(base: Seq<char>, rel: Seq<char>) -> Seq<char> {
    if rel.len() > 0 && rel[0] == '/' {
        rel
    } else if base.len() > 0 && base.last() != '/' {
        base + root_part() + rel
    } else {
        base + rel
    }
}

/// True if a piece of a path names nothing: it is empty, or a `.` behind the beginning.
pub open spec fn is_idle_piece(piece: Seq<char>, place: int) -> bool {
    piece.len() == 0 || (piece == here_part() && place > 0)
}

/// The pieces up to the last that names something.
pub open spec fn up_to_named(pieces: Seq<Seq<char>>) -> Seq<Seq<char>>
    decreases pieces.len(),
{
    if pieces.len() > 0 && is_idle_piece(pieces.last(), pieces.len() - 1) {
        up_to_named(pieces.drop_last())
    } else {
        pieces
    }
}

/// How the parent of a path is written: as far as the last but one component goes.
pub open spec fn parent_text(text: Seq<char>) -> Seq<char> {
    let all = up_to_named(split_on(text, '/'));
    let pieces = if all.len() > 0 {
        up_to_named(all.drop_last())
    } else {
        all
    };
    if pieces.len() == 0 && text.len() > 0 && text[0] == '/' {
        root_part()
    } else {
        joined(pieces, root_part())
    }
}

/// A path as the list of its components, and as it is written.
#[derive(Debug)]
pub struct LexicalPath {
    text: String,
    parts: Vec<String>,
}

impl View for LexicalPath {
    type V = Seq<Seq<char>>;

    closed spec fn view(&self) -> Seq<Seq<char>> {
        views(self.parts@)
    }
}

impl Clone for LexicalPath {
    fn clone(&self) -> (r: Self)
        ensures
            r@ == self@,
            r.written() == self.written(),
    {
        proof {
            use_type_invariant(self);
        }
        LexicalPath { text: self.text.clone(), parts: clone_strings(&self.parts) }
    }
}

impl PartialEq for LexicalPath {
    fn eq(&self, other: &Self) -> (r: bool) {
        self.same_path(other)
    }
}

impl vstd::std_specs::cmp::PartialEqSpecImpl for LexicalPath {
    open spec fn obeys_eq_spec() -> bool {
        true
    }

    open spec fn eq_spec(&self, other: &Self) -> bool {
        self@ == other@
    }
}

impl Eq for LexicalPath {

}

proof fn lemma_split_pieces(s: Seq<char>, sep: char)
    ensures
        split_on(s, sep).len() >= 1,
        forall|i: int| 0 <= i < split_on(s, sep).len() ==> !(#[trigger] split_on(s, sep)[i]).contains(sep),
    decreases s.len(),
{
    if s.len() > 0 {
        let before = split_on(s.drop_last(), sep);
        lemma_split_pieces(s.drop_last(), sep);
        let parts = split_on(s, sep);
        assert forall|i: int| 0 <= i < parts.len() implies !(#[trigger] parts[i]).contains(sep) by {
            if s.last() == sep {
                if i < before.len() {
                    assert(parts[i] == before[i]);
                }
            } else if i < before.len() - 1 {
                assert(parts[i] == before[i]);
            } else {
                assert(!before[i].contains(sep));
                assert(parts[i] == before.last().push(s.last()));
                if parts[i].contains(sep) {
                    let k = choose|k: int| 0 <= k < parts[i].len() && parts[i][k] == sep;
                    assert(before.last()[k] == sep);
                }
            }
        }
    }
}

proof fn lemma_named_pieces(pieces: Seq<Seq<char>>)
    requires
        forall|i: int| 0 <= i < pieces.len() ==> !(#[trigger] pieces[i]).contains('/'),
    ensures
        forall|i: int|
            0 <= i < named_pieces(pieces).len() ==> is_plain_part(
                #[trigger] named_pieces(pieces)[i],
            ) && (i > 0 ==> named_pieces(pieces)[i] != here_part()),
        pieces.len() > 0 && pieces[0].len() == 0 ==> forall|i: int|
            0 <= i < named_pieces(pieces).len() ==> #[trigger] named_pieces(pieces)[i]
                != here_part(),
    decreases pieces.len(),
{
    if pieces.len() > 0 {
        let before = named_pieces(pieces.drop_last());
        lemma_named_pieces(pieces.drop_last());
        let all = named_pieces(pieces);
        assert(!pieces.last().contains('/'));
        if pieces.len() == 1 {
            assert(before.len() == 0);
        }
        assert forall|i: int| 0 <= i < all.len() implies is_plain_part(#[trigger] all[i]) && (i > 0
            ==> all[i] != here_part()) by {
            if i < before.len() {
                assert(all[i] == before[i]);
            }
        }
        if pieces[0].len() == 0 {
            assert forall|i: int| 0 <= i < all.len() implies #[trigger] all[i] != here_part() by {
                if i < before.len() {
                    assert(pieces.drop_last().len() > 0 ==> pieces.drop_last()[0] == pieces[0]);
                    assert(all[i] == before[i]);
                }
            }
        }
    }
}

proof fn lemma_first_piece(s: Seq<char>, sep: char)
    requires
        s.len() > 0,
        s[0] == sep,
    ensures
        split_on(s, sep)[0].len() == 0,
        split_on(s, sep).len() >= 2,
    decreases s.len(),
{
    let before = split_on(s.drop_last(), sep);
    if s.len() == 1 {
        assert(before =~= seq![Seq::<char>::empty()]);
    } else {
        lemma_first_piece(s.drop_last(), sep);
    }
}

/// The components of any text form a path.
pub proof fn law_components_form_a_path(text: Seq<char>)
    ensures
        is_path(components(text)),
{
    let pieces = split_on(text, '/');
    lemma_split_pieces(text, '/');
    lemma_named_pieces(pieces);
    let names = named_pieces(pieces);
    let all = components(text);
    if text.len() > 0 && text[0] == '/' {
        lemma_first_piece(text, '/');
        assert forall|i: int| 0 <= i < all.len() implies {
            ||| i == 0 && all[i] == root_part()
            ||| is_plain_part(#[trigger] all[i]) && (i > 0 ==> all[i] != here_part())
        } by {
            if i > 0 {
                assert(all[i] == names[i - 1]);
            }
        }
    }
}

/// A path joined with a single name has the first path as its parent and the name
/// as its file name.
pub proof fn law_parent_of_join(base: Seq<Seq<char>>, name: Seq<char>)
    requires
        is_plain_part(name),
        name != here_part(),
        name != up_part(),
    ensures
        parent_path(join_path(base, seq![name])) == Some(base),
        path_file_name(join_path(base, seq![name])) == Some(name),
{
    assert(root_part()[0] == '/');
    assert(name != root_part()) by {
        if name == root_part() {
            assert(name[0] == '/');
        }
    }
    let all = join_path(base, seq![name]);
    assert(all =~= base.push(name));
    assert(all.drop_last() =~= base);
}

/// A relative path joined to a base begins with the base.
pub proof fn law_join_starts_with_base(base: Seq<Seq<char>>, rel: Seq<Seq<char>>)
    requires
        !is_absolute_path(rel),
    ensures
        base.is_prefix_of(join_path(base, rel)),
{
    assert(join_path(base, rel).subrange(0, base.len() as int) =~= base);
}

proof fn lemma_split_append(s: Seq<char>, t: Seq<char>, sep: char)
    requires
        !t.contains(sep),
    ensures
        split_on(s + t, sep) == split_on(s, sep).drop_last().push(split_on(s, sep).last() + t),
    decreases t.len(),
{
    lemma_split_pieces(s, sep);
    if t.len() == 0 {
        assert(s + t =~= s);
        assert(split_on(s, sep).last() + t =~= split_on(s, sep).last());
        assert(split_on(s, sep) =~= split_on(s, sep).drop_last().push(split_on(s, sep).last()));
    } else {
        let u = t.drop_last();
        assert(!u.contains(sep)) by {
            if u.contains(sep) {
                let k = choose|k: int| 0 <= k < u.len() && u[k] == sep;
                assert(t[k] == sep);
            }
        }
        lemma_split_append(s, u, sep);
        assert((s + t).drop_last() =~= s + u);
        assert((s + t).last() == t.last());
        assert(t.last() != sep) by {
            assert(t[t.len() - 1] == t.last());
        }
        let before = split_on(s + u, sep);
        assert(before.last() == split_on(s, sep).last() + u);
        assert((split_on(s, sep).last() + u).push(t.last()) =~= split_on(s, sep).last() + t);
        assert(before.drop_last() =~= split_on(s, sep).drop_last());
    }
}

proof fn lemma_split_of_joined(parts: Seq<Seq<char>>)
    requires
        parts.len() > 0,
        forall|i: int| 0 <= i < parts.len() ==> !(#[trigger] parts[i]).contains('/'),
    ensures
        split_on(joined(parts, root_part()), '/') == parts,
    decreases parts.len(),
{
    let empty = Seq::<char>::empty();
    if parts.len() == 1 {
        lemma_split_append(empty, parts[0], '/');
        assert(empty + parts[0] =~= parts[0]);
        assert(split_on(empty, '/') =~= seq![empty]);
        assert(split_on(parts[0], '/') =~= parts);
    } else {
        let init = parts.drop_last();
        assert forall|i: int| 0 <= i < init.len() implies !(#[trigger] init[i]).contains('/') by {
            assert(init[i] == parts[i]);
        }
        lemma_split_of_joined(init);
        let left = joined(init, root_part()) + root_part();
        assert(left.drop_last() =~= joined(init, root_part()));
        assert(split_on(left, '/') == init.push(empty));
        lemma_split_append(left, parts.last(), '/');
        assert(init.push(empty).drop_last() =~= init);
        assert(empty + parts.last() =~= parts.last());
        assert(init.push(parts.last()) =~= parts);
    }
}

proof fn lemma_split_after_slash(t: Seq<char>)
    ensures
        split_on(root_part() + t, '/') == seq![Seq::<char>::empty()] + split_on(t, '/'),
    decreases t.len(),
{
    let empty = Seq::<char>::empty();
    let whole = root_part() + t;
    if t.len() == 0 {
        assert(whole =~= root_part());
        assert(whole.drop_last() =~= empty);
        assert(split_on(empty, '/') =~= seq![empty]);
        assert(split_on(whole, '/') =~= seq![empty, empty]);
        assert(seq![empty] + split_on(t, '/') =~= seq![empty, empty]);
    } else {
        lemma_split_after_slash(t.drop_last());
        lemma_split_pieces(t.drop_last(), '/');
        assert(whole.drop_last() =~= root_part() + t.drop_last());
        assert(whole.last() == t.last());
        assert(split_on(whole, '/') =~= seq![empty] + split_on(t, '/'));
    }
}

proof fn lemma_split_at_slash(a: Seq<char>, b: Seq<char>)
    ensures
        split_on(a + root_part() + b, '/') == split_on(a, '/') + split_on(b, '/'),
    decreases b.len(),
{
    let whole = a + root_part() + b;
    lemma_split_pieces(a, '/');
    lemma_split_pieces(b, '/');
    if b.len() == 0 {
        assert(whole =~= a + root_part());
        assert(whole.drop_last() =~= a);
        assert(split_on(b, '/') =~= seq![Seq::<char>::empty()]);
        assert(split_on(whole, '/') =~= split_on(a, '/') + split_on(b, '/'));
    } else {
        let c = b.drop_last();
        lemma_split_pieces(c, '/');
        lemma_split_at_slash(a, c);
        assert(whole.drop_last() =~= a + root_part() + c);
        assert(whole.last() == b.last());
        let before = split_on(a, '/') + split_on(c, '/');
        assert(before.last() == split_on(c, '/').last());
        assert(before.drop_last() =~= split_on(a, '/') + split_on(c, '/').drop_last());
        assert(split_on(whole, '/') =~= split_on(a, '/') + split_on(b, '/'));
    }
}

/// A name is a path of one component, and behind a text and a slash it is one component more.
pub proof fn law_name_is_one_component(head: Seq<char>, name: Seq<char>)
    requires
        is_plain_part(name),
        name != here_part(),
    ensures
        components(name) == seq![name],
        head.len() > 0 ==> components(head + root_part() + name) == components(head).push(name),
{
    lemma_split_of_joined(seq![name]);
    let none = seq![name].drop_last();
    assert(none.len() == 0);
    assert(joined(none, root_part()).len() == 0);
    assert(joined(seq![name], root_part()) =~= name);
    assert(split_on(name, '/') == seq![name]);
    assert(named_pieces(none) =~= Seq::<Seq<char>>::empty());
    assert(named_pieces(seq![name]) =~= seq![name]);
    assert(name[0] != '/') by {
        if name[0] == '/' {
            assert(name.contains('/'));
        }
    }
    lemma_split_at_slash(head, name);
    let pieces = split_on(head, '/') + seq![name];
    assert(pieces.drop_last() =~= split_on(head, '/'));
    assert(pieces.last() == name);
    if head.len() > 0 {
        let whole = head + root_part() + name;
        assert(whole[0] == head[0]);
        assert(components(whole) =~= components(head).push(name));
    }
}

proof fn lemma_named_add(a: Seq<Seq<char>>, b: Seq<Seq<char>>)
    requires
        a.len() > 0,
    ensures
        named_pieces(a + b) == named_pieces(a) + (if b.len() > 0 && b[0] == here_part() {
            named_pieces(b).drop_first()
        } else {
            named_pieces(b)
        }),
        b.len() > 0 && b[0] == here_part() ==> named_pieces(b).len() > 0 && named_pieces(b)[0]
            == here_part(),
        b.len() > 0 && b[0] != here_part() && b[0].len() > 0 ==> named_pieces(b).len() > 0
            && named_pieces(b)[0] == b[0],
    decreases b.len(),
{
    if b.len() == 0 {
        assert(a + b =~= a);
        assert(named_pieces(a) + named_pieces(b) =~= named_pieces(a));
    } else {
        let init = b.drop_last();
        lemma_named_add(a, init);
        assert((a + b).drop_last() =~= a + init);
        assert((a + b).last() == b.last());
        if init.len() == 0 {
            assert(named_pieces(init) =~= Seq::<Seq<char>>::empty());
            if b[0] == here_part() {
                assert(named_pieces(b) =~= seq![here_part()]);
                assert(named_pieces(b).drop_first() =~= Seq::<Seq<char>>::empty());
            }
        } else {
            assert(init[0] == b[0]);
        }
        assert(named_pieces(a + b) =~= named_pieces(a) + (if b[0] == here_part() {
            named_pieces(b).drop_first()
        } else {
            named_pieces(b)
        }));
    }
}

proof fn lemma_first_of_split(s: Seq<char>)
    ensures
        s.len() == 0 ==> split_on(s, '/') == seq![Seq::<char>::empty()],
        s.len() > 0 && s[0] == '/' ==> split_on(s, '/')[0].len() == 0,
        s.len() > 0 && s[0] != '/' ==> split_on(s, '/')[0].len() > 0 && split_on(s, '/')[0][0]
            == s[0],
    decreases s.len(),
{
    if s.len() > 0 {
        let init = s.drop_last();
        lemma_first_of_split(init);
        lemma_split_pieces(init, '/');
        if s[0] == '/' {
            lemma_first_piece(s, '/');
        }
    }
}

pub(crate) proof fn lemma_absolute_text(text: Seq<char>)
    ensures
        is_absolute_path(components(text)) == (text.len() > 0 && text[0] == '/'),
{
    let pieces = split_on(text, '/');
    let empty = Seq::<char>::empty();
    let none = Seq::<Seq<char>>::empty();
    lemma_split_pieces(text, '/');
    lemma_first_of_split(text);
    if text.len() > 0 && text[0] == '/' {
        assert(components(text)[0] == root_part());
    } else {
        lemma_named_add(seq![empty], pieces);
        assert(pieces.drop_last().len() == pieces.len() - 1);
        if text.len() == 0 {
            assert(seq![empty].drop_last() =~= none);
            assert(named_pieces(none) =~= none);
            assert(named_pieces(pieces) =~= none);
        }
        if components(text).len() > 0 {
            assert(named_pieces(pieces)[0] == pieces[0]);
            assert(root_part()[0] == '/');
            assert(pieces[0].contains(pieces[0][0]));
        }
    }
}

/// Joining paths as they are written joins their components.
pub proof fn law_joined_text_joins(base: Seq<char>, rel: Seq<char>)
    ensures
        components(joined_text(base, rel)) == join_path(components(base), components(rel)),
{
    let b = split_on(base, '/');
    let r = split_on(rel, '/');
    lemma_split_pieces(base, '/');
    lemma_split_pieces(rel, '/');
    lemma_first_of_split(base);
    lemma_first_of_split(rel);
    let none = Seq::<Seq<char>>::empty();
    let empty = Seq::<char>::empty();
    if rel.len() > 0 && rel[0] == '/' {
        assert(components(rel)[0] == root_part());
    } else {
        lemma_named_add(seq![empty], r);
        assert(seq![empty].drop_last() =~= none);
        assert(named_pieces(none) =~= none);
        assert(named_pieces(seq![empty]) =~= none);
        if rel.len() == 0 {
            assert(named_pieces(r) =~= none);
        }
        lemma_absolute_text(rel);
        let text = joined_text(base, rel);
        if base.len() == 0 {
            assert(text =~= rel);
            assert(b =~= seq![empty]);
            assert(components(base) =~= none);
            assert(none + components(rel) =~= components(rel));
        } else {
            let front = if base.last() == '/' {
                base.drop_last()
            } else {
                base
            };
            if base.last() == '/' {
                assert(base =~= front + root_part());
                assert(text =~= front + root_part() + rel);
                assert(b =~= split_on(front, '/').push(empty));
            }
            let f = split_on(front, '/');
            lemma_split_pieces(front, '/');
            lemma_split_at_slash(front, rel);
            lemma_named_add(f, r);
            assert(named_pieces(b) == named_pieces(f)) by {
                if base.last() == '/' {
                    assert(b.drop_last() =~= f);
                }
            }
            assert(text[0] == base[0]);
            assert(components(base).len() > 0) by {
                if base[0] != '/' {
                    lemma_named_add(seq![empty], b);
                }
            }
            if rel.len() > 0 && r[0] == here_part() {
                assert(components(rel)[0] == here_part());
            } else if components(rel).len() > 0 {
                assert(components(rel)[0] == r[0]);
            }
            assert(components(text) =~= join_path(components(base), components(rel)));
        }
    }
}

proof fn lemma_up_to_named(pieces: Seq<Seq<char>>)
    ensures
        named_pieces(up_to_named(pieces)) == named_pieces(pieces),
        up_to_named(pieces).len() <= pieces.len(),
        up_to_named(pieces).len() > 0 ==> named_pieces(pieces) == named_pieces(
            up_to_named(pieces).drop_last(),
        ).push(up_to_named(pieces).last()),
        up_to_named(pieces).len() == 0 ==> named_pieces(pieces).len() == 0,
        forall|i: int|
            0 <= i < up_to_named(pieces).len() ==> up_to_named(pieces)[i] == #[trigger] pieces[i],
    decreases pieces.len(),
{
    if pieces.len() > 0 && is_idle_piece(pieces.last(), pieces.len() - 1) {
        lemma_up_to_named(pieces.drop_last());
        assert forall|i: int| 0 <= i < up_to_named(pieces).len() implies up_to_named(pieces)[i]
            == #[trigger] pieces[i] by {
            assert(pieces.drop_last()[i] == pieces[i]);
        }
    }
}

/// The parent of a path as it is written has the components of the parent.
pub proof fn law_parent_text_is_the_parent(text: Seq<char>)
    requires
        parent_path(components(text)) is Some,
    ensures
        parent_path(components(text)) == Some(components(parent_text(text))),
{
    let pieces = split_on(text, '/');
    let none = Seq::<Seq<char>>::empty();
    let empty = Seq::<char>::empty();
    lemma_split_pieces(text, '/');
    lemma_first_of_split(text);
    let first = up_to_named(pieces);
    lemma_up_to_named(pieces);
    let names = named_pieces(pieces);
    let absolute = text.len() > 0 && text[0] == '/';
    assert(first.len() > 0) by {
        if first.len() == 0 {
            assert(components(text) =~= if absolute {
                seq![root_part()]
            } else {
                none
            });
        }
    }
    let rest = first.drop_last();
    let second = up_to_named(rest);
    lemma_up_to_named(rest);
    assert(named_pieces(second) == names.drop_last()) by {
        assert(named_pieces(rest).push(first.last()).drop_last() =~= named_pieces(rest));
    }
    assert forall|i: int| 0 <= i < second.len() implies second[i] == #[trigger] pieces[i] by {
        assert(rest[i] == first[i]);
    }
    let up = parent_text(text);
    if second.len() == 0 {
        assert(second =~= none);
        assert(names.drop_last() =~= none) by {
            assert(named_pieces(none) =~= none);
        }
        if absolute {
            assert(up =~= root_part());
            assert(root_part() + empty =~= root_part());
            lemma_split_after_slash(empty);
            assert(split_on(empty, '/') =~= seq![empty]);
            assert(split_on(up, '/') =~= seq![empty, empty]);
            assert(seq![empty, empty].drop_last() =~= seq![empty]);
            assert(seq![empty].drop_last() =~= none);
            assert(named_pieces(seq![empty]) =~= none);
            assert(components(up) =~= seq![root_part()]);
            assert(components(text).drop_last() =~= seq![root_part()]);
        } else {
            lemma_empty_path();
            assert(up =~= empty);
            assert(components(text).drop_last() =~= none);
        }
    } else {
        assert forall|i: int| 0 <= i < second.len() implies !(#[trigger] second[i]).contains(
            '/',
        ) by {
            assert(second[i] == pieces[i]);
        }
        lemma_split_of_joined(second);
        lemma_first_of_split(up);
        assert(second[0] == pieces[0]);
        if absolute {
            assert(pieces[0].len() == 0);
            assert(second.len() > 1) by {
                if second.len() == 1 {
                    assert(second.last() == pieces[0]);
                    lemma_stops_at_named(rest);
                }
            }
            assert(up.len() > 0);
            assert(up[0] == '/');
        } else {
            assert(text.len() > 0) by {
                if text.len() == 0 {
                    lemma_empty_path();
                    assert(components(text) =~= none);
                }
            }
            if up.len() > 0 && up[0] == '/' {
                assert(split_on(up, '/')[0].len() == 0);
            }
        }
        assert(components(up) =~= components(text).drop_last());
    }
}

proof fn lemma_stops_at_named(pieces: Seq<Seq<char>>)
    ensures
        up_to_named(pieces).len() > 0 ==> !is_idle_piece(
            up_to_named(pieces).last(),
            up_to_named(pieces).len() - 1,
        ),
    decreases pieces.len(),
{
    if pieces.len() > 0 && is_idle_piece(pieces.last(), pieces.len() - 1) {
        lemma_stops_at_named(pieces.drop_last());
    }
}

impl LexicalPath {
    #[verifier::type_invariant]
    spec fn well_formed(self) -> bool {
        views(self.parts@) == components(self.text@)
    }

    /// The path as it is written.
    pub closed spec fn written(&self) -> Seq<char> {
        self.text@
    }

    /// The path that a text stands for.
    pub fn parse(text: &str) -> (r: LexicalPath)
        ensures
            r@ == components(text@),
            r.written() == text@,
    {
        let pieces = split(text, '/');
        let mut parts: Vec<String> = Vec::new();
        if text.unicode_len() > 0 && text.get_char(0) == '/' {
            let mut root = String::new();
            root.push('/');
            assert(root@ =~= root_part());
            parts.push(root);
            assert(views(parts@) =~= seq![root_part()]);
        }
        let ghost front = views(parts@);
        let mut i: usize = 0;
        while i < pieces.len()
            invariant
                i <= pieces@.len(),
                views(parts@) =~= front + named_pieces(views(pieces@).take(i as int)),
            decreases pieces@.len() - i,
        {
            let ghost next = views(pieces@).take(i + 1);
            assert(next.drop_last() =~= views(pieces@).take(i as int));
            assert(next.last() == pieces@[i as int]@);
            let dot = {
                let mut d = String::new();
                d.push('.');
                assert(d@ =~= here_part());
                d
            };
            if !(pieces[i].as_str().is_empty() || (same(pieces[i].as_str(), dot.as_str()) && i
                > 0)) {
                let ghost so_far = parts@;
                parts.push(pieces[i].clone());
                assert(views(parts@) =~= views(so_far).push(pieces@[i as int]@));
            }
            i = i + 1;
        }
        assert(views(pieces@).take(pieces@.len() as int) =~= views(pieces@));
        assert(views(parts@) =~= components(text@));
        LexicalPath { text: text.to_string(), parts }
    }

    /// The path as it is written.
    pub fn to_text(&self) -> (r: String)
        ensures
            r@ == self.written(),
            components(r@) == self@,
    {
        proof {
            use_type_invariant(self);
        }
        self.text.clone()
    }

    /// True for a path that begins at the root.
    pub fn is_absolute(&self) -> (r: bool)
        ensures
            r == is_absolute_path(self@),
            r == (self.written().len() > 0 && self.written()[0] == '/'),
    {
        proof {
            use_type_invariant(self);
            lemma_absolute_text(self.text@);
        }
        if self.parts.len() == 0 {
            return false;
        }
        let mut root = String::new();
        root.push('/');
        assert(root@ =~= root_part());
        assert(self@[0] == self.parts@[0]@);
        same(self.parts[0].as_str(), root.as_str())
    }

    /// True if both paths have the same components.
    pub fn same_path(&self, other: &LexicalPath) -> (r: bool)
        ensures
            r == (self@ == other@),
    {
        assert(self@.len() == self.parts@.len());
        assert(other@.len() == other.parts@.len());
        self.parts.len() == other.parts.len() && self.starts_with(other)
    }

    /// True if the path begins with all the components of `base`.
    pub fn starts_with(&self, base: &LexicalPath) -> (r: bool)
        ensures
            r == base@.is_prefix_of(self@),
            self@.len() == base@.len() ==> r == (self@ == base@),
    {
        if base.parts.len() > self.parts.len() {
            return false;
        }
        let mut i: usize = 0;
        while i < base.parts.len()
            invariant
                i <= base.parts@.len() <= self.parts@.len(),
                self@ == views(self.parts@),
                base@ == views(base.parts@),
                base@.take(i as int) == self@.take(i as int),
            decreases base.parts@.len() - i,
        {
            if !same(base.parts[i].as_str(), self.parts[i].as_str()) {
                assert(base@[i as int] != self@[i as int]);
                assert(base@.is_prefix_of(self@) ==> base@[i as int] == self@.subrange(
                    0,
                    base@.len() as int,
                )[i as int]);
                return false;
            }
            assert(base@.take(i + 1) =~= base@.take(i as int).push(base@[i as int]));
            assert(self@.take(i + 1) =~= self@.take(i as int).push(self@[i as int]));
            i = i + 1;
        }
        assert(base@.take(base@.len() as int) =~= base@);
        assert(base@.len() == self@.len() ==> self@.take(base@.len() as int) =~= self@);
        true
    }

    /// `rel` seen from this path.
    pub fn join(&self, rel: &LexicalPath) -> (r: LexicalPath)
        ensures
            r@ == join_path(self@, rel@),
            r.written() == joined_text(self.written(), rel.written()),
    {
        proof {
            use_type_invariant(self);
            use_type_invariant(rel);
            law_joined_text_joins(self.text@, rel.text@);
        }
        let length = self.text.as_str().unicode_len();
        let absolute = rel.text.as_str().unicode_len() > 0 && rel.text.as_str().get_char(0) == '/';
        if absolute {
            return rel.clone();
        }
        let mut text = self.text.clone();
        if length > 0 && self.text.as_str().get_char(length - 1) != '/' {
            text.push('/');
            assert(text@ =~= self.text@ + root_part());
        }
        text.append(rel.text.as_str());
        LexicalPath::parse(text.as_str())
    }

    /// The path written as `rel`, seen from this path.
    pub fn join_text(&self, rel: &str) -> (r: LexicalPath)
        ensures
            r@ == join_path(self@, components(rel@)),
            r.written() == joined_text(self.written(), rel@),
    {
        let rel = LexicalPath::parse(rel);
        self.join(&rel)
    }

    /// The path without its last component.
    pub fn parent(&self) -> (r: Option<LexicalPath>)
        ensures
            r is Some == parent_path(self@) is Some,
            r matches Some(up) ==> parent_path(self@) == Some(up@) && up.written() == parent_text(
                self.written(),
            ),
    {
        if self.parts.len() == 0 {
            return None;
        }
        let last: usize = self.parts.len() - 1;
        let mut root = String::new();
        root.push('/');
        assert(root@ =~= root_part());
        assert(self@.last() == self.parts@[last as int]@);
        if same(self.parts[last].as_str(), root.as_str()) {
            return None;
        }
        proof {
            use_type_invariant(self);
            law_parent_text_is_the_parent(self.text@);
        }
        let text = text_of_parent(self.text.as_str());
        Some(LexicalPath::parse(text.as_str()))
    }

    /// The last component, if it is a name.
    pub fn file_name(&self) -> (r: Option<String>)
        ensures
            opt_view(r) == path_file_name(self@),
    {
        if self.parts.len() == 0 {
            return None;
        }
        let last: usize = self.parts.len() - 1;
        let mut root = String::new();
        root.push('/');
        let mut here = String::new();
        here.push('.');
        let mut up = String::new();
        up.push('.');
        up.push('.');
        assert(root@ =~= root_part());
        assert(here@ =~= here_part());
        assert(up@ =~= up_part());
        assert(self@.last() == self.parts@[last as int]@);
        let name = self.parts[last].as_str();
        if same(name, root.as_str()) || same(name, here.as_str()) || same(name, up.as_str()) {
            None
        } else {
            Some(self.parts[last].clone())
        }
    }

    /// The path itself, then its parent, then the parent of that, and so on.
    pub fn ancestors(&self) -> (r: Vec<LexicalPath>)
        ensures
            path_views(r@) == path_ancestors(self@),
    {
        let mut list: Vec<LexicalPath> = Vec::new();
        let mut current = self.clone();
        loop
            invariant_except_break
                path_views(list@) + path_ancestors(current@) == path_ancestors(self@),
            ensures
                path_views(list@) == path_ancestors(self@),
            decreases current@.len(),
        {
            let ghost so_far = list@;
            let up = current.parent();
            let ghost here = current@;
            list.push(current);
            assert(path_views(list@) =~= path_views(so_far).push(here));
            match up {
                None => {
                    assert(path_views(list@) =~= path_views(so_far) + seq![here]);
                    break;
                },
                Some(next) => {
                    assert(path_views(list@) + path_ancestors(next@) =~= path_views(so_far) + (
                    seq![here] + path_ancestors(next@)));
                    current = next;
                },
            }
        }
        list
    }
}

/// How many of the first pieces there are up to the last that names something.
fn named_length(pieces: &Vec<String>, length: usize) -> (r: usize)
    requires
        length <= pieces@.len(),
    ensures
        r <= length,
        up_to_named(views(pieces@).take(length as int)) == views(pieces@).take(r as int),
{
    let mut dot = String::new();
    dot.push('.');
    assert(dot@ =~= here_part());
    let ghost all = views(pieces@);
    let mut n: usize = length;
    while n > 0
        invariant
            n <= length <= pieces@.len(),
            all == views(pieces@),
            dot@ == here_part(),
            up_to_named(all.take(length as int)) == up_to_named(all.take(n as int)),
        ensures
            n <= length,
            up_to_named(all.take(length as int)) == all.take(n as int),
        decreases n,
    {
        let ghost front = all.take(n as int);
        assert(front.last() == pieces@[n - 1]@);
        assert(front.drop_last() =~= all.take(n - 1));
        let piece = pieces[n - 1].as_str();
        if !(piece.is_empty() || (same(piece, dot.as_str()) && n > 1)) {
            break;
        }
        n = n - 1;
    }
    n
}

/// How the parent of a path is written.
fn text_of_parent(text: &str) -> (r: String)
    ensures
        r@ == parent_text(text@),
{
    let pieces = split(text, '/');
    let ghost all = views(pieces@);
    assert(all.take(all.len() as int) =~= all);
    let first = named_length(&pieces, pieces.len());
    let rest: usize = if first > 0 {
        first - 1
    } else {
        0
    };
    assert(first > 0 ==> all.take(first as int).drop_last() =~= all.take(rest as int));
    let second = named_length(&pieces, rest);
    if second == 0 && text.unicode_len() > 0 && text.get_char(0) == '/' {
        let mut root = String::new();
        root.push('/');
        assert(root@ =~= root_part());
        return root;
    }
    let mut kept: Vec<String> = Vec::new();
    let mut i: usize = 0;
    assert(views(kept@) =~= all.take(0));
    while i < second
        invariant
            i <= second <= pieces@.len(),
            all == views(pieces@),
            views(kept@) == all.take(i as int),
        decreases second - i,
    {
        let ghost before = kept@;
        kept.push(pieces[i].clone());
        assert(views(kept@) =~= views(before).push(all[i as int]));
        assert(all.take(i + 1) =~= all.take(i as int).push(all[i as int]));
        i = i + 1;
    }
    let mut slash = String::new();
    slash.push('/');
    assert(slash@ =~= root_part());
    join(&kept, slash.as_str())
}

/// The paths of a list as they are written.
pub open spec fn written_texts(paths: Seq<LexicalPath>) -> Seq<Seq<char>> {
    paths.map_values(|p: LexicalPath| p.written())
}

/// The path of an option as it is written.
pub open spec fn opt_written(path: Option<LexicalPath>) -> Option<Seq<char>> {
    match path {
        Some(p) => Some(p.written()),
        None => None,
    }
}

/// The path of an option: its components, and how it is written.
pub open spec fn opt_shown(path: Option<LexicalPath>) -> Option<(Seq<Seq<char>>, Seq<char>)> {
    match path {
        Some(p) => Some((p@, p.written())),
        None => None,
    }
}

/// The components of each path of a list.
pub open spec fn path_views(paths: Seq<LexicalPath>) -> Seq<Seq<Seq<char>>> {
    paths.map_values(|p: LexicalPath| p@)
}

/// True if the path is in the list.
pub fn contains_path(paths: &Vec<LexicalPath>, path: &LexicalPath) -> (r: bool)
    ensures
        r == path_views(paths@).contains(path@),
{
    let mut i: usize = 0;
    while i < paths.len()
        invariant
            i <= paths@.len(),
            forall|j: int| 0 <= j < i ==> path_views(paths@)[j] != path@,
        decreases paths@.len() - i,
    {
        if paths[i].same_path(path) {
            assert(path_views(paths@)[i as int] == path@);
            return true;
        }
        i = i + 1;
    }
    false
}

/// The empty text stands for the path without components.
pub proof fn lemma_empty_path()
    ensures
        components(Seq::<char>::empty()) == Seq::<Seq<char>>::empty(),
{
    let empty = Seq::<char>::empty();
    assert(split_on(empty, '/') =~= seq![empty]);
    assert(seq![empty].drop_last() =~= Seq::<Seq<char>>::empty());
    assert(named_pieces(Seq::<Seq<char>>::empty()) =~= Seq::<Seq<char>>::empty());
    assert(named_pieces(seq![empty]) =~= Seq::<Seq<char>>::empty());
}

} // verus!
