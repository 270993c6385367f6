//! What paths are made of, whatever they lead to.

use crate::http_laws::{lemma_behind_separator, lemma_no_separator};
use crate::lexical_path::{
    components, contains_path, law_name_is_one_component, named_pieces, path_ancestors, path_views,
    up_to_named, LexicalPath,
};
use crate::provider_watch::PathView;
use crate::restart_laws::is_at_or_above;
use crate::text::{joined, split_on};
use crate::watch_event::nearest_existing_ancestor;
use vstd::prelude::*;

verus! {

/// True for the name of a file or a directory.
pub open spec fn is_name(text: Seq<char>) -> bool {
    text.len() > 0 && !text.contains('/') && text != seq!['.']
}

/// A path is read from its text component by component: behind a slash a name is one component
/// more, and nothing and a dot are none. A slash at the beginning is the root.
pub proof fn law_path_is_read_by_components(
    head: &str,
    name: Seq<char>,
    text: &str,
    before: LexicalPath,
    r: LexicalPath,
)
    requires
        call_ensures(LexicalPath::parse, (head,), before),
        call_ensures(LexicalPath::parse, (text,), r),
    ensures
        r.written() == text@,
        text@.len() == 0 ==> r@.len() == 0,
        text@ == seq!['/'] ==> r@ == seq![seq!['/']],
        text@ == seq!['.'] ==> r@ == seq![seq!['.']],
        text@ == name && is_name(name) ==> r@ == seq![name],
        text@ == seq!['/'] + name && is_name(name) ==> r@ == seq![seq!['/'], name],
        head@.len() > 0 && text@ == head@ + seq!['/'] ==> r@ == before@,
        head@.len() > 0 && text@ == head@ + seq!['/'] + seq!['.'] ==> r@ == before@,
        head@.len() > 0 && text@ == head@ + seq!['/'] + name && is_name(name) ==> r@
            == before@.push(name),
{
    let t = text@;
    let empty = Seq::<char>::empty();
    let none = Seq::<Seq<char>>::empty();
    if t.len() == 0 {
        assert(t =~= empty);
        crate::lexical_path::lemma_empty_path();
    }
    if t == seq!['/'] {
        assert(t =~= empty + seq!['/'] + empty);
        lemma_behind_separator(empty, empty, '/');
        let pieces = split_on(t, '/');
        assert(split_on(empty, '/') =~= seq![empty]);
        assert(pieces =~= seq![empty, empty]);
        assert(pieces.drop_last() =~= seq![empty]);
        assert(seq![empty].drop_last() =~= none);
        reveal_with_fuel(named_pieces, 3);
        assert(named_pieces(pieces) =~= none);
        assert(components(t) =~= seq![seq!['/']]);
    }
    if t == seq!['.'] {
        lemma_no_separator(t, '/');
        let pieces = split_on(t, '/');
        assert(pieces =~= seq![t]);
        assert(pieces.drop_last() =~= none);
        reveal_with_fuel(named_pieces, 2);
        assert(components(t) =~= seq![seq!['.']]);
    }
    if is_name(name) {
        law_name_is_one_component(head@, name);
        if t == seq!['/'] + name {
            assert(t =~= empty + seq!['/'] + name);
            lemma_behind_separator(empty, name, '/');
            let pieces = split_on(t, '/');
            assert(split_on(empty, '/') =~= seq![empty]);
            assert(pieces =~= seq![empty, name]);
            assert(pieces.drop_last() =~= seq![empty]);
            assert(seq![empty].drop_last() =~= none);
            reveal_with_fuel(named_pieces, 3);
            assert(named_pieces(pieces) =~= seq![name]);
            assert(components(t) =~= seq![seq!['/'], name]);
        }
    }
    if head@.len() > 0 {
        let h = split_on(head@, '/');
        crate::text::lemma_split_nonempty(head@, '/');
        if t == head@ + seq!['/'] {
            assert(t =~= head@ + seq!['/'] + empty);
            lemma_behind_separator(head@, empty, '/');
            assert(h.push(empty).drop_last() =~= h);
            assert(t[0] == head@[0]);
        }
        if t == head@ + seq!['/'] + seq!['.'] {
            lemma_behind_separator(head@, seq!['.'], '/');
            assert(h.push(seq!['.']).drop_last() =~= h);
            assert(t[0] == head@[0]);
        }
        if t == head@ + seq!['/'] + name {
            assert(t[0] == head@[0]);
        }
    }
}

/// A path begins at the root where its first component is the root, which it is where its
/// text begins with a slash. It is shown as it is written.
pub proof fn law_root_comes_first(path: &LexicalPath, absolute: bool, text: String)
    requires
        call_ensures(LexicalPath::is_absolute, (path,), absolute),
        call_ensures(LexicalPath::to_text, (path,), text),
    ensures
        absolute <==> path@.len() > 0 && path@[0] == seq!['/'],
        absolute <==> path.written().len() > 0 && path.written()[0] == '/',
        text@ == path.written(),
{
}

/// Paths are the same where their components are, and one is below another where it begins
/// with all the components of that one.
pub proof fn law_paths_are_compared_by_components(
    path: &LexicalPath,
    other: &LexicalPath,
    same: bool,
    below: bool,
)
    requires
        call_ensures(LexicalPath::same_path, (path, other), same),
        call_ensures(LexicalPath::starts_with, (path, other), below),
    ensures
        same <==> path@.len() == other@.len() && forall|i: int|
            0 <= i < path@.len() ==> #[trigger] path@[i] == other@[i],
        below <==> is_at_or_above(other@, path@),
{
    if path@.len() == other@.len() && forall|i: int|
        0 <= i < path@.len() ==> #[trigger] path@[i] == other@[i] {
        assert(path@ =~= other@);
    }
    if below {
        assert forall|k: int| 0 <= k < other@.len() implies other@[k] == #[trigger] path@[k] by {
            assert(path@.subrange(0, other@.len() as int)[k] == path@[k]);
        }
    }
    if is_at_or_above(other@, path@) {
        assert(other@ =~= path@.subrange(0, other@.len() as int));
    }
}

/// A path that begins at the root stands for itself wherever it is seen from; the components
/// of any other come behind those of the place, but for a dot at its beginning.
pub proof fn law_path_is_put_behind_another(
    base: &LexicalPath,
    rel: &LexicalPath,
    text: &str,
    joined: LexicalPath,
    from_text: LexicalPath,
)
    requires
        call_ensures(LexicalPath::join, (base, rel), joined),
        call_ensures(LexicalPath::join_text, (base, text), from_text),
        call_ensures(LexicalPath::parse, (text,), *rel),
    ensures
        rel@.len() > 0 && rel@[0] == seq!['/'] ==> joined@ == rel@ && joined.written()
            == rel.written(),
        !(rel@.len() > 0 && rel@[0] == seq!['/']) ==> joined@ == if base@.len() > 0 && rel@.len()
            > 0 && rel@[0] == seq!['.'] {
            base@ + rel@.skip(1)
        } else {
            base@ + rel@
        },
        rel.written().len() > 0 && rel.written()[0] != '/' && base.written().len() > 0
            ==> joined.written() == if base.written().last() == '/' {
            base.written() + rel.written()
        } else {
            base.written() + seq!['/'] + rel.written()
        },
        from_text@ == joined@,
        from_text.written() == joined.written(),
{
    assert(rel@.skip(1) =~= rel@.drop_first());
    law_first_component_tells(text, *rel);
}

/// The first component of a path is the root exactly where its text begins with a slash.
pub proof fn law_first_component_tells(text: &str, r: LexicalPath)
    requires
        call_ensures(LexicalPath::parse, (text,), r),
    ensures
        r@.len() > 0 && r@[0] == seq!['/'] <==> text@.len() > 0 && text@[0] == '/',
{
    crate::lexical_path::lemma_absolute_text(text@);
}

/// The parent of a path has all its components but the last. The root and the path without
/// components have none.
pub proof fn law_parent_lacks_the_last_component(path: &LexicalPath, r: Option<LexicalPath>)
    requires
        call_ensures(LexicalPath::parent, (path,), r),
    ensures
        path@.len() == 0 || path@.last() == seq!['/'] ==> r is None,
        path@.len() > 0 && path@.last() != seq!['/'] ==> (r matches Some(up) && up@
            == path@.take(path@.len() - 1)),
{
    if path@.len() > 0 {
        assert(path@.take(path@.len() - 1) =~= path@.drop_last());
    }
}

proof fn lemma_joined_pieces(s: Seq<char>)
    ensures
        joined(split_on(s, '/'), seq!['/']) == s,
        split_on(s, '/').len() > 0,
    decreases s.len(),
{
    let slash = seq!['/'];
    if s.len() == 0 {
        assert(joined(split_on(s, '/'), slash) =~= s);
    } else {
        let init = s.drop_last();
        let before = split_on(init, '/');
        lemma_joined_pieces(init);
        if s.last() == '/' {
            let all = before.push(Seq::<char>::empty());
            assert(all.drop_last() =~= before);
            assert(joined(all, slash) =~= s);
        } else {
            let all = before.drop_last().push(before.last().push(s.last()));
            assert(all.drop_last() =~= before.drop_last());
            assert(all.len() == before.len());
            assert(all.last() == before.last().push(s.last()));
            assert(split_on(s, '/') == all);
            if before.len() == 1 {
                assert(joined(before, slash) == before[0]);
                assert(joined(all, slash) == all[0]);
                assert(before.last() == before[0]);
                assert(joined(all, slash) =~= s);
            } else {
                let front = joined(before.drop_last(), slash);
                assert(joined(before, slash) == front + slash + before.last());
                assert(joined(all, slash) == front + slash + all.last());
                assert(joined(all, slash) =~= init.push(s.last()));
                assert(init.push(s.last()) =~= s);
            }
        }
    }
}

proof fn lemma_last_piece(s: Seq<char>)
    requires
        s.len() > 0,
        s.last() != '/',
    ensures
        split_on(s, '/').last().len() > 0,
        split_on(s, '/').last().last() == s.last(),
{
    crate::text::lemma_split_nonempty(s.drop_last(), '/');
}

/// The parent of a path is written as far as the slash before its name goes.
pub proof fn law_parent_is_written_without_the_name(
    path: &LexicalPath,
    head: Seq<char>,
    name: Seq<char>,
    r: Option<LexicalPath>,
)
    requires
        call_ensures(LexicalPath::parent, (path,), r),
        path.written() == head + seq!['/'] + name,
        is_name(name),
        head.len() > 0,
        head.last() != '/' && head.last() != '.',
    ensures
        r matches Some(up) ==> up.written() == head,
{
    let text = path.written();
    let pieces = split_on(head, '/');
    lemma_behind_separator(head, name, '/');
    lemma_joined_pieces(head);
    lemma_last_piece(head);
    let all = pieces.push(name);
    assert(all.last() == name);
    assert(up_to_named(all) == all);
    assert(all.drop_last() =~= pieces);
    assert(pieces.last() != seq!['.']);
    assert(up_to_named(pieces) == pieces);
}

/// The name of a file is the last component, unless that is the root or one or two dots.
pub proof fn law_name_is_the_last_component(path: &LexicalPath, r: Option<String>)
    requires
        call_ensures(LexicalPath::file_name, (path,), r),
    ensures
        path@.len() == 0 ==> r is None,
        path@.len() > 0 && (path@.last() == seq!['/'] || path@.last() == seq!['.'] || path@.last()
            == seq!['.', '.']) ==> r is None,
        path@.len() > 0 && path@.last() != seq!['/'] && path@.last() != seq!['.'] && path@.last()
            != seq!['.', '.'] ==> (r matches Some(name) && name@ == path@.last()),
{
}

/// Above a path stand those with fewer and fewer of its components: at the root it ends, and
/// without a root at the path without components.
pub proof fn law_ancestors_have_fewer_components(path: PathView)
    requires
        forall|i: int| 0 < i < path.len() ==> #[trigger] path[i] != seq!['/'],
    ensures
        path_ancestors(path).len() == if path.len() > 0 && path[0] == seq!['/'] {
            path.len()
        } else {
            path.len() + 1
        },
        forall|k: int|
            0 <= k < path_ancestors(path).len() ==> #[trigger] path_ancestors(path)[k] == path.take(
                path.len() - k,
            ),
    decreases path.len(),
{
    let all = path_ancestors(path);
    assert(path.take(path.len() as int) =~= path);
    if path.len() > 0 && path.last() != seq!['/'] {
        let up = path.drop_last();
        assert forall|i: int| 0 < i < up.len() implies #[trigger] up[i] != seq!['/'] by {
            assert(up[i] == path[i]);
        }
        law_ancestors_have_fewer_components(up);
        assert(all =~= seq![path] + path_ancestors(up));
        assert forall|k: int| 0 <= k < all.len() implies #[trigger] all[k] == path.take(
            path.len() - k,
        ) by {
            if k > 0 {
                assert(all[k] == path_ancestors(up)[k - 1]);
                assert(up.take(up.len() - (k - 1)) =~= path.take(path.len() - k));
            }
        }
        if up.len() > 0 {
            assert(up[0] == path[0]);
        } else {
            assert(path[0] == path.last());
        }
    } else {
        assert(all =~= seq![path]);
        if path.len() > 1 {
            assert(path[path.len() - 1] == path.last());
        }
    }
}

/// What stands above a path is listed from the path itself upwards.
pub proof fn law_ancestors_are_listed(path: &LexicalPath, r: Vec<LexicalPath>, k: int)
    requires
        call_ensures(LexicalPath::ancestors, (path,), r),
        forall|i: int| 0 < i < path@.len() ==> #[trigger] path@[i] != seq!['/'],
    ensures
        r@.len() == if path@.len() > 0 && path@[0] == seq!['/'] {
            path@.len()
        } else {
            path@.len() + 1
        },
        0 <= k < r@.len() ==> r@[k]@ == path@.take(path@.len() - k),
{
    law_ancestors_have_fewer_components(path@);
    let all = path_views(r@);
    assert(all.len() == r@.len());
    if 0 <= k < r@.len() {
        assert(all[k] == r@[k]@);
        assert(path_ancestors(path@)[k] == path@.take(path@.len() - k));
    }
}

/// Among a path and what stands above it the first that is there is taken.
pub proof fn law_nearest_that_exists_is_taken(
    path: &LexicalPath,
    found: &Vec<bool>,
    i: int,
    r: Option<LexicalPath>,
)
    requires
        call_ensures(nearest_existing_ancestor, (path, found), r),
    ensures
        0 <= i < path_ancestors(path@).len() && i < found@.len() && found@[i] && (forall|k: int|
            0 <= k < i ==> !#[trigger] found@[k]) ==> (r matches Some(dir) && dir@
            == path_ancestors(path@)[i]),
        (forall|k: int| 0 <= k < found@.len() ==> !#[trigger] found@[k]) ==> r is None,
{
    crate::plugin_engine::run_laws::law_first_yes_is_taken(path_ancestors(path@), found@, i);
}

/// A path is in a list where one with the same components is.
pub proof fn law_list_is_searched_by_components(
    paths: &Vec<LexicalPath>,
    path: &LexicalPath,
    r: bool,
)
    requires
        call_ensures(contains_path, (paths, path), r),
    ensures
        r <==> exists|i: int| 0 <= i < paths@.len() && (#[trigger] paths@[i])@ == path@,
{
    let seen = path_views(paths@);
    assert(seen.len() == paths@.len());
    if r {
        let i = choose|i: int| 0 <= i < seen.len() && seen[i] == path@;
        assert(paths@[i]@ == path@);
    }
    if exists|i: int| 0 <= i < paths@.len() && (#[trigger] paths@[i])@ == path@ {
        let i = choose|i: int| 0 <= i < paths@.len() && (#[trigger] paths@[i])@ == path@;
        assert(seen[i] == path@);
    }
}

} // verus!
