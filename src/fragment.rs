//! Reading a tag fragment back: the fragment that the encoder writes splits
//! into the original pairs.
use vstd::prelude::*;
use crate::line_protocol::{escape_spaces, pair_text, tags_text, tags_well_formed};

verus! {

/// Undoes the escaping of spaces: a backslash followed by a space becomes a
/// space; every other character stays.
pub open spec fn unescape_spaces(t: Seq<char>) -> Seq<char>
    decreases t.len(),
{
    if t.len() == 0 {
        Seq::empty()
    } else if t.len() >= 2 && t[0] == '\\' && t[1] == ' ' {
        seq![' '] + unescape_spaces(t.skip(2))
    } else {
        seq![t[0]] + unescape_spaces(t.skip(1))
    }
}

/// The pieces of `t` between commas, in order.
pub open spec fn split_commas(t: Seq<char>) -> Seq<Seq<char>>
    decreases t.len(),
{
    if t.len() == 0 {
        seq![Seq::empty()]
    } else {
        let rest = split_commas(t.skip(1));
        if t[0] == ',' {
            seq![Seq::<char>::empty()] + rest
        } else {
            rest.update(0, seq![t[0]] + rest[0])
        }
    }
}

/// What precedes the first `=` of `t` (all of `t` where it has none).
pub open spec fn before_equals(t: Seq<char>) -> Seq<char>
    decreases t.len(),
{
    if t.len() == 0 || t[0] == '=' {
        Seq::empty()
    } else {
        seq![t[0]] + before_equals(t.skip(1))
    }
}

/// What follows the first `=` of `t` (nothing where it has none).
pub open spec fn after_equals(t: Seq<char>) -> Seq<char>
    decreases t.len(),
{
    if t.len() == 0 {
        Seq::empty()
    } else if t[0] == '=' {
        t.skip(1)
    } else {
        after_equals(t.skip(1))
    }
}

pub open spec fn free_of(t: Seq<char>, c: char) -> bool {
    forall|i: int| 0 <= i < t.len() ==> t[i] != c
}

proof fn lemma_escape_concat(a: Seq<char>, b: Seq<char>)
    ensures
        escape_spaces(a + b) == escape_spaces(a) + escape_spaces(b),
    decreases b.len(),
{
    if b.len() == 0 {
        assert(a + b =~= a);
        assert(escape_spaces(a) + escape_spaces(b) =~= escape_spaces(a));
    } else {
        lemma_escape_concat(a, b.drop_last());
        assert((a + b).drop_last() =~= a + b.drop_last());
        assert((a + b).last() == b.last());
        assert(escape_spaces(a + b) =~= escape_spaces(a) + escape_spaces(b));
    }
}

proof fn lemma_escape_front(v: Seq<char>)
    requires
        v.len() > 0,
    ensures
        v[0] == ' ' ==> escape_spaces(v) == seq!['\\', ' '] + escape_spaces(v.skip(1)),
        v[0] != ' ' ==> escape_spaces(v) == seq![v[0]] + escape_spaces(v.skip(1)),
{
    lemma_escape_concat(seq![v[0]], v.skip(1));
    assert(seq![v[0]] + v.skip(1) =~= v);
    assert(seq![v[0]].drop_last() =~= Seq::<char>::empty());
    assert(escape_spaces(Seq::<char>::empty()) =~= Seq::<char>::empty());
    if v[0] == ' ' {
        assert(escape_spaces(seq![v[0]]) =~= seq!['\\', ' ']);
    } else {
        assert(escape_spaces(seq![v[0]]) =~= seq![v[0]]);
    }
}

/// Unescaping what was escaped gives back the original text.
pub proof fn lemma_unescape_escape(v: Seq<char>)
    ensures
        unescape_spaces(escape_spaces(v)) == v,
    decreases v.len(),
{
    if v.len() == 0 {
        assert(escape_spaces(v) =~= Seq::<char>::empty());
        assert(v =~= Seq::<char>::empty());
    } else {
        lemma_escape_front(v);
        lemma_unescape_escape(v.skip(1));
        let e = escape_spaces(v);
        let rest = escape_spaces(v.skip(1));
        if v[0] == ' ' {
            assert(e.skip(2) =~= rest);
        } else {
            assert(e.skip(1) =~= rest);
            if v[0] == '\\' && rest.len() > 0 {
                lemma_escape_front(v.skip(1));
                assert(rest[0] != ' ');
            }
        }
        assert(v =~= seq![v[0]] + v.skip(1));
    }
}

proof fn lemma_split_nonempty(t: Seq<char>)
    ensures
        split_commas(t).len() >= 1,
    decreases t.len(),
{
    if t.len() > 0 {
        lemma_split_nonempty(t.skip(1));
    }
}

/// Splitting around one comma splits each side.
proof fn lemma_split_join(a: Seq<char>, b: Seq<char>)
    ensures
        split_commas(a + seq![','] + b) == split_commas(a) + split_commas(b),
    decreases a.len(),
{
    let t = a + seq![','] + b;
    lemma_split_nonempty(a);
    lemma_split_nonempty(b);
    if a.len() == 0 {
        assert(t.skip(1) =~= b);
        assert(split_commas(a) =~= seq![Seq::<char>::empty()]);
    } else {
        assert(t.skip(1) =~= a.skip(1) + seq![','] + b);
        lemma_split_join(a.skip(1), b);
        lemma_split_nonempty(a.skip(1));
        assert(split_commas(t) =~= split_commas(a) + split_commas(b));
    }
}

proof fn lemma_split_free(t: Seq<char>)
    requires
        free_of(t, ','),
    ensures
        split_commas(t) == seq![t],
    decreases t.len(),
{
    if t.len() > 0 {
        assert(free_of(t.skip(1), ','));
        lemma_split_free(t.skip(1));
        assert(seq![t[0]] + t.skip(1) =~= t);
        assert(split_commas(t) =~= seq![t]);
    } else {
        assert(t =~= Seq::<char>::empty());
    }
}

proof fn lemma_pair_parts(key: Seq<char>, rest: Seq<char>)
    requires
        free_of(key, '='),
    ensures
        before_equals(key + seq!['='] + rest) == key,
        after_equals(key + seq!['='] + rest) == rest,
    decreases key.len(),
{
    let t = key + seq!['='] + rest;
    if key.len() == 0 {
        assert(t.skip(1) =~= rest);
        assert(key =~= Seq::<char>::empty());
    } else {
        assert(free_of(key.skip(1), '='));
        assert(t.skip(1) =~= key.skip(1) + seq!['='] + rest);
        lemma_pair_parts(key.skip(1), rest);
        assert(seq![key[0]] + key.skip(1) =~= key);
    }
}

proof fn lemma_escape_free(v: Seq<char>)
    requires
        free_of(v, ','),
    ensures
        free_of(escape_spaces(v), ','),
    decreases v.len(),
{
    if v.len() > 0 {
        assert(free_of(v.drop_last(), ','));
        lemma_escape_free(v.drop_last());
    }
}

/// Tags whose keys hold no `,` or `=` and whose values hold no `,`.
pub open spec fn tags_splittable(tags: Seq<Vec<String>>) -> bool {
    &&& tags_well_formed(tags)
    &&& forall|i: int| 0 <= i < tags.len() ==> free_of(#[trigger] tags[i]@[0]@, ',') && free_of(tags[i]@[0]@, '=')
    &&& forall|i: int| 0 <= i < tags.len() ==> free_of(#[trigger] tags[i]@[1]@, ',')
}

proof fn lemma_split_tags(tags: Seq<Vec<String>>)
    requires
        tags.len() > 0,
        tags_splittable(tags),
    ensures
        split_commas(tags_text(tags)) == tags.map_values(|t: Vec<String>| pair_text(t@)),
    decreases tags.len(),
{
    let last = tags.last()@;
    assert(tags[tags.len() - 1]@ == last);
    lemma_escape_free(last[1]@);
    assert(free_of(pair_text(last), ','));
    lemma_split_free(pair_text(last));
    if tags.len() == 1 {
        assert(tags.map_values(|t: Vec<String>| pair_text(t@)) =~= seq![pair_text(last)]);
    } else {
        let init = tags.drop_last();
        assert forall|i: int| 0 <= i < init.len() implies free_of(#[trigger] init[i]@[0]@, ',') && free_of(
            init[i]@[0]@,
            '=',
        ) && free_of(init[i]@[1]@, ',') && init[i]@.len() >= 2 by {
            assert(init[i] == tags[i]);
        }
        lemma_split_tags(init);
        lemma_split_join(tags_text(init), pair_text(last));
        assert(tags.map_values(|t: Vec<String>| pair_text(t@)) =~= init.map_values(
            |t: Vec<String>| pair_text(t@),
        ).push(pair_text(last)));
    }
}

/// The tag fragment splits on its commas into one piece per tag, in order;
/// each piece holds the key before its first `=` and, once unescaped, the
/// value after it.
pub proof fn lemma_tag_fragment_round_trip(tags: Seq<Vec<String>>)
    requires
        tags.len() > 0,
        tags_splittable(tags),
    ensures
        split_commas(tags_text(tags)).len() == tags.len(),
        forall|i: int| 0 <= i < tags.len() ==> before_equals(#[trigger] split_commas(tags_text(tags))[i])
            == tags[i]@[0]@,
        forall|i: int| 0 <= i < tags.len() ==> unescape_spaces(after_equals(#[trigger] split_commas(tags_text(tags))[i]))
            == tags[i]@[1]@,
{
    lemma_split_tags(tags);
    assert forall|i: int| 0 <= i < tags.len() implies before_equals(#[trigger] split_commas(tags_text(tags))[i])
        == tags[i]@[0]@ && unescape_spaces(after_equals(split_commas(tags_text(tags))[i])) == tags[i]@[1]@ by {
        assert(split_commas(tags_text(tags))[i] == pair_text(tags[i]@));
        lemma_pair_parts(tags[i]@[0]@, escape_spaces(tags[i]@[1]@));
        lemma_unescape_escape(tags[i]@[1]@);
    }
}

} // verus!
