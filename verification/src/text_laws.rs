//! What holds of the operations on texts, whatever the texts are.

use crate::text::{
    after_first, before_first, decimal, digit, digits_value, is_blank, is_digit, is_white_space,
    joined, lowered, number_of, split_on, trimmed, trimmed_end, trimmed_start, views, white_space,
};
use crate::text_order::{
    before, law_order_is_irreflexive, law_order_is_transitive, ordered_places, sorted_distinct,
    text_less,
};
use vstd::prelude::*;

verus! {

/// True if a text holds nothing but white space.
pub open spec fn all_white(s: Seq<char>) -> bool {
    forall|i: int| 0 <= i < s.len() ==> is_white_space(#[trigger] s[i])
}

proof fn lemma_start_is_trimmed(a: Seq<char>, t: Seq<char>)
    requires
        all_white(a),
        t.len() > 0 ==> !is_white_space(t[0]),
    ensures
        trimmed_start(a + t) == t,
    decreases a.len(),
{
    if a.len() == 0 {
        assert(a + t =~= t);
    } else {
        let rest = a.drop_first();
        assert forall|i: int| 0 <= i < rest.len() implies is_white_space(#[trigger] rest[i]) by {
            assert(rest[i] == a[i + 1]);
        }
        lemma_start_is_trimmed(rest, t);
        assert((a + t)[0] == a[0]);
        assert((a + t).drop_first() =~= rest + t);
    }
}

proof fn lemma_end_is_trimmed(t: Seq<char>, b: Seq<char>)
    requires
        all_white(b),
        t.len() > 0 ==> !is_white_space(t.last()),
    ensures
        trimmed_end(t + b) == t,
    decreases b.len(),
{
    if b.len() == 0 {
        assert(t + b =~= t);
    } else {
        let rest = b.drop_last();
        assert forall|i: int| 0 <= i < rest.len() implies is_white_space(#[trigger] rest[i]) by {
            assert(rest[i] == b[i]);
        }
        lemma_end_is_trimmed(t, rest);
        assert((t + b).last() == b[b.len() - 1]);
        assert((t + b).drop_last() =~= t + rest);
    }
}

/// Trimming takes the white space at both ends away and nothing else, and a text is blank
/// where nothing is left.
pub proof fn law_trimming_takes_the_ends(a: Seq<char>, t: Seq<char>, b: Seq<char>)
    requires
        all_white(a),
        all_white(b),
        t.len() > 0 ==> !is_white_space(t[0]) && !is_white_space(t.last()),
    ensures
        trimmed(a + t + b) == t,
        is_blank(a + t + b) <==> t.len() == 0,
{
    if t.len() == 0 {
        let all = a + b;
        assert(a + t + b =~= all + Seq::<char>::empty());
        lemma_start_is_trimmed(all, Seq::empty());
        assert(trimmed(a + t + b) =~= t);
    } else {
        assert(a + t + b =~= a + (t + b));
        assert((t + b)[0] == t[0]);
        lemma_start_is_trimmed(a, t + b);
        lemma_end_is_trimmed(t, b);
    }
}

/// The two sides of a character are found where it stands for the first time.
pub proof fn law_first_occurrence_parts(s: Seq<char>, left: Seq<char>, right: Seq<char>, c: char)
    requires
        s == left + seq![c] + right,
        !left.contains(c),
    ensures
        after_first(s, c) == Some(right),
        before_first(s, c) == left,
    decreases left.len(),
{
    if left.len() == 0 {
        assert(s[0] == c);
        assert(s.drop_first() =~= right);
        assert(before_first(s, c) =~= left);
    } else {
        let rest = left.drop_first();
        assert(s[0] == left[0]);
        assert(left.contains(left[0]));
        assert(s.drop_first() =~= rest + seq![c] + right);
        assert(!rest.contains(c)) by {
            if rest.contains(c) {
                let i = choose|i: int| 0 <= i < rest.len() && rest[i] == c;
                assert(left[i + 1] == c);
            }
        }
        law_first_occurrence_parts(s.drop_first(), rest, right, c);
        assert(seq![s[0]] + rest =~= left);
    }
}

/// Where a character does not occur, nothing follows it and everything comes before it.
pub proof fn law_missing_character_parts_nothing(s: Seq<char>, c: char)
    requires
        !s.contains(c),
    ensures
        after_first(s, c) is None,
        before_first(s, c) == s,
    decreases s.len(),
{
    if s.len() > 0 {
        let rest = s.drop_first();
        assert(s.contains(s[0]));
        assert(!rest.contains(c)) by {
            if rest.contains(c) {
                let i = choose|i: int| 0 <= i < rest.len() && rest[i] == c;
                assert(s[i + 1] == c);
            }
        }
        law_missing_character_parts_nothing(rest, c);
        assert(seq![s[0]] + rest =~= s);
    } else {
        assert(before_first(s, c) =~= s);
    }
}

/// A number is written digit by digit, in tens.
pub proof fn law_decimal_is_written_in_tens(n: nat, d: nat)
    requires
        d < 10,
    ensures
        decimal(d) == seq![(d + '0' as nat) as char],
        n > 0 ==> decimal(10 * n + d) == decimal(n).push((d + '0' as nat) as char),
{
    if n > 0 {
        assert((10 * n + d) / 10 == n);
        assert((10 * n + d) % 10 == d);
    }
}

/// A number that was written is read back, with a plus sign in front of it or without.
pub proof fn law_number_reads_back(n: u64)
    ensures
        number_of(decimal(n as nat)) == Some(n),
        number_of(seq!['+'] + decimal(n as nat)) == Some(n),
{
    lemma_decimal_value(n as nat);
    let plain = decimal(n as nat);
    let signed = seq!['+'] + plain;
    assert(is_digit(plain[0]));
    assert(signed.drop_first() =~= plain);
    assert(forall|i: int| 0 <= i < plain.len() ==> is_digit(#[trigger] plain[i]));
}

proof fn lemma_decimal_value(n: nat)
    ensures
        decimal(n).len() > 0,
        digits_value(decimal(n)) == n,
        forall|i: int| 0 <= i < decimal(n).len() ==> is_digit(#[trigger] decimal(n)[i]),
    decreases n,
{
    let all = decimal(n);
    if n < 10 {
        assert(all.drop_last() =~= Seq::<char>::empty());
        assert(all.last() == digit(n as int));
        assert(digits_value(all.drop_last()) == 0);
    } else {
        lemma_decimal_value(n / 10);
        assert(all.drop_last() =~= decimal(n / 10));
        assert(all.last() == digit((n % 10) as int));
    }
}

/// A text that is no number is not read as one: it is empty, or has a character that is no
/// digit behind the sign.
pub proof fn law_only_digits_are_read(s: Seq<char>, i: int)
    ensures
        s.len() == 0 ==> number_of(s) is None,
        s == seq!['+'] ==> number_of(s) is None,
        0 < i < s.len() && !('0' <= s[i] <= '9') ==> number_of(s) is None,
        s.len() > 0 && s[0] != '+' && !('0' <= s[0] <= '9') ==> number_of(s) is None,
{
    if 0 < i < s.len() && !('0' <= s[i] <= '9') {
        if s[0] == '+' {
            assert(s.drop_first()[i - 1] == s[i]);
        }
    }
}

/// Folding to small letters moves the capitals of ASCII to their small letters and leaves
/// every other character where it is.
pub proof fn law_only_capitals_become_small(s: Seq<char>, i: int)
    requires
        0 <= i < s.len(),
    ensures
        lowered(s).len() == s.len(),
        'A' <= s[i] <= 'Z' ==> lowered(s)[i] as int - 'a' as int == s[i] as int - 'A' as int,
        !('A' <= s[i] <= 'Z') ==> lowered(s)[i] == s[i],
{
}

/// The pieces of a text hold no separator, and those of a text behind another, with the
/// separator between them, follow those of the other.
pub proof fn law_split_parts_at_each_separator(a: Seq<char>, b: Seq<char>, sep: char)
    ensures
        !a.contains(sep) ==> split_on(a, sep) == seq![a],
        split_on(a + seq![sep] + b, sep) == split_on(a, sep) + split_on(b, sep),
    decreases b.len(), a.len(),
{
    if !a.contains(sep) {
        lemma_one_piece(a, sep);
    }
    let whole = a + seq![sep] + b;
    crate::text::lemma_split_nonempty(a, sep);
    crate::text::lemma_split_nonempty(b, sep);
    if b.len() == 0 {
        assert(whole.drop_last() =~= a);
        assert(split_on(whole, sep) =~= split_on(a, sep) + split_on(b, sep));
    } else {
        let init = b.drop_last();
        law_split_parts_at_each_separator(a, init, sep);
        crate::text::lemma_split_nonempty(init, sep);
        assert(whole.drop_last() =~= a + seq![sep] + init);
        assert(whole.last() == b.last());
        assert(split_on(whole, sep) =~= split_on(a, sep) + split_on(b, sep));
    }
}

proof fn lemma_one_piece(a: Seq<char>, sep: char)
    requires
        !a.contains(sep),
    ensures
        split_on(a, sep) == seq![a],
    decreases a.len(),
{
    if a.len() == 0 {
        assert(a =~= Seq::<char>::empty());
        assert(split_on(a, sep) =~= seq![a]);
    } else {
        let init = a.drop_last();
        assert(!init.contains(sep)) by {
            if init.contains(sep) {
                let i = choose|i: int| 0 <= i < init.len() && init[i] == sep;
                assert(a[i] == sep);
            }
        }
        lemma_one_piece(init, sep);
        assert(a.contains(a[a.len() - 1]));
        assert(init.push(a.last()) =~= a);
        assert(split_on(a, sep) =~= seq![a]);
    }
}

/// Joining puts the separator between neighbours and nowhere else.
pub proof fn law_joining_adds_a_part(parts: Seq<Seq<char>>, part: Seq<char>, sep: Seq<char>)
    ensures
        joined(Seq::empty(), sep) == Seq::<char>::empty(),
        joined(seq![part], sep) == part,
        parts.len() > 0 ==> joined(parts.push(part), sep) == joined(parts, sep) + sep + part,
{
    assert(joined(Seq::empty(), sep) =~= Seq::<char>::empty());
    let one = seq![part];
    assert(one.drop_last() =~= Seq::<Seq<char>>::empty());
    assert(joined(one, sep) =~= part);
    assert(parts.push(part).drop_last() =~= parts);
    if parts.len() > 0 {
        assert(joined(parts.push(part), sep) =~= joined(parts, sep) + sep + part);
    }
}

/// Texts are ordered by the first character in which they differ, and one that goes on comes
/// after one that ends.
pub proof fn law_first_difference_decides(head: Seq<char>, a: Seq<char>, b: Seq<char>)
    ensures
        b.len() > 0 ==> text_less(head, head + b),
        !text_less(head + a, head),
        a.len() > 0 && b.len() > 0 && a[0] != b[0] ==> (text_less(head + a, head + b) <==> (
        a[0] as int) < (b[0] as int)),
    decreases head.len(),
{
    if head.len() == 0 {
        assert(head + a =~= a);
        assert(head + b =~= b);
    } else {
        let rest = head.drop_first();
        law_first_difference_decides(rest, a, b);
        assert((head + a).drop_first() =~= rest + a);
        assert((head + b).drop_first() =~= rest + b);
        assert((head + a)[0] == head[0] && (head + b)[0] == head[0]);
    }
}

/// White space are the tabulators and ends of lines, the spaces of all widths, and the
/// separators of lines and paragraphs; no letter, digit or sign of ASCII is.
pub proof fn law_white_space_is_known(c: char, r: bool)
    requires
        call_ensures(white_space, (c,), r),
    ensures
        c == ' ' || c == '\t' || c == '\n' || c == '\r' ==> r,
        0x21 <= c as int <= 0x7e ==> !r,
        r <==> 0x9 <= c as int <= 0xd || 0x2000 <= c as int <= 0x200a || c as int == 0x20 || c as int
            == 0x85 || c as int == 0xa0 || c as int == 0x1680 || c as int == 0x2028 || c as int
            == 0x2029 || c as int == 0x202f || c as int == 0x205f || c as int == 0x3000,
{
}

/// True if a text is in a list.
pub open spec fn has_text(list: Seq<String>, text: Seq<char>) -> bool {
    exists|i: int| 0 <= i < list.len() && (#[trigger] list[i])@ == text
}

/// A list is brought into ascending order, each text once, and no text is lost or added.
pub proof fn law_texts_are_sorted(list: &Vec<String>, r: Vec<String>)
    requires
        call_ensures(sorted_distinct, (list,), r),
    ensures
        forall|i: int, j: int|
            0 <= i < j < r@.len() ==> text_less((#[trigger] r@[i])@, (#[trigger] r@[j])@),
        forall|text: Seq<char>| #[trigger] has_text(r@, text) <==> has_text(list@, text),
{
    let given = views(list@);
    let sorted = views(r@);
    assert(given.len() == list@.len());
    assert(sorted.len() == r@.len());
    assert(crate::text_order::ascending(sorted));
    assert forall|i: int, j: int| 0 <= i < j < r@.len() implies text_less(
        (#[trigger] r@[i])@,
        (#[trigger] r@[j])@,
    ) by {
        assert(sorted[i] == r@[i]@);
        assert(sorted[j] == r@[j]@);
    }
    assert forall|text: Seq<char>| #[trigger] has_text(r@, text) <==> has_text(list@, text) by {
        assert(sorted.contains(text) <==> given.contains(text));
        lemma_has_text(r@, text);
        lemma_has_text(list@, text);
    }
}

proof fn lemma_has_text(list: Seq<String>, text: Seq<char>)
    ensures
        has_text(list, text) <==> views(list).contains(text),
{
    let all = views(list);
    assert(all.len() == list.len());
    if has_text(list, text) {
        let i = choose|i: int| 0 <= i < list.len() && (#[trigger] list[i])@ == text;
        assert(all[i] == text);
    }
    if all.contains(text) {
        let i = choose|i: int| 0 <= i < all.len() && all[i] == text;
        assert(list[i]@ == text);
    }
}

/// A text comes before another where it is less.
pub proof fn law_lesser_text_comes_first(a: &str, b: &str, r: bool)
    requires
        call_ensures(before, (a, b), r),
    ensures
        r <==> text_less(a@, b@),
        a@ == b@ ==> !r,
        a@.len() == 0 && b@.len() > 0 ==> r,
{
    crate::text_order::law_order_is_irreflexive(a@);
}

/// The places of a list are put in the order of the texts there, each place once; places with
/// the same text stay as they are.
pub proof fn law_places_go_by_their_texts(keys: &Vec<String>, k: int, l: int, r: Vec<usize>)
    requires
        call_ensures(ordered_places, (keys,), r),
        0 <= k < l < keys@.len(),
    ensures
        r@.len() == keys@.len(),
        r@[k] < keys@.len(),
        r@[l] < keys@.len(),
        r@[k] != r@[l],
        !text_less(keys@[r@[l] as int]@, keys@[r@[k] as int]@),
        keys@[r@[k] as int]@ == keys@[r@[l] as int]@ ==> r@[k] < r@[l],
{
    let all = views(keys@);
    let places = r@.map_values(|p: usize| p as int);
    assert(all.len() == keys@.len());
    assert(places.len() == r@.len());
    assert(places[k] == r@[k] as int);
    assert(places[l] == r@[l] as int);
    let a = all[places[k]];
    let b = all[places[l]];
    assert(a == keys@[r@[k] as int]@);
    assert(b == keys@[r@[l] as int]@);
    law_order_is_irreflexive(a);
    if text_less(a, b) && text_less(b, a) {
        law_order_is_transitive(a, b, a);
    }
}

} // verus!
