//! Mathematical model of the wire form of a delimited list: one string in
//! which the elements' string forms stand in order, separated by a single
//! delimiter character. Decoding first removes every whitespace character
//! from the whole string and then splits on exact occurrences of the
//! delimiter.

use vstd::prelude::*;

verus! {

/// The whitespace characters that decoding removes from the whole wire
/// string: space, tab, line feed, carriage return and form feed.
pub open spec fn is_whitespace(c: char) -> bool {
    c == ' ' || c == '\t' || c == '\n' || c == '\r' || c == '\u{c}'
}

/// Holds when no character of `s` is whitespace.
pub open spec fn whitespace_free(s: Seq<char>) -> bool {
    forall|i: int| 0 <= i < s.len() ==> !is_whitespace(s[i])
}

/// Holds when every fragment of `frags` is free of whitespace.
pub open spec fn all_whitespace_free(frags: Seq<Seq<char>>) -> bool {
    forall|i: int| 0 <= i < frags.len() ==> whitespace_free(#[trigger] frags[i])
}

/// Holds when no character of `s` is the delimiter `d`.
pub open spec fn delimiter_free(s: Seq<char>, d: char) -> bool {
    forall|i: int| 0 <= i < s.len() ==> s[i] != d
}

/// Holds when every fragment of `frags` is free of the delimiter `d`.
pub open spec fn all_delimiter_free(frags: Seq<Seq<char>>, d: char) -> bool {
    forall|i: int| 0 <= i < frags.len() ==> delimiter_free(#[trigger] frags[i], d)
}

/// `s` with every whitespace character removed.
pub open spec fn strip_whitespace(s: Seq<char>) -> Seq<char>
    decreases s.len(),
{
    if s.len() == 0 {
        Seq::empty()
    } else if is_whitespace(s.last()) {
        strip_whitespace(s.drop_last())
    } else {
        strip_whitespace(s.drop_last()).push(s.last())
    }
}

/// The fragments of `s` between occurrences of the delimiter `d`, in order.
/// A string without the delimiter is a single fragment; each delimiter
/// occurrence separates two fragments, so the result never is empty and
/// fragments themselves never contain the delimiter.
pub open spec fn split_on(s: Seq<char>, d: char) -> Seq<Seq<char>>
    decreases s.len(),
{
    if s.len() == 0 {
        seq![Seq::<char>::empty()]
    } else {
        let rest = split_on(s.drop_first(), d);
        if s.first() == d {
            seq![Seq::<char>::empty()] + rest
        } else {
            seq![seq![s.first()] + rest.first()] + rest.drop_first()
        }
    }
}

/// The fragments of `frags` concatenated in order with the delimiter `d`
/// between each neighbouring pair.
pub open spec fn join_with(frags: Seq<Seq<char>>, d: char) -> Seq<char>
    decreases frags.len(),
{
    if frags.len() == 0 {
        Seq::empty()
    } else if frags.len() == 1 {
        frags.first()
    } else {
        frags.first() + seq![d] + join_with(frags.drop_first(), d)
    }
}

/// Splitting always yields at least one fragment.
pub proof fn lemma_split_len(s: Seq<char>, d: char)
    ensures
        split_on(s, d).len() >= 1,
    decreases s.len(),
{
    if s.len() > 0 {
        lemma_split_len(s.drop_first(), d);
    }
}

/// A delimiter-free string splits into exactly itself.
pub proof fn lemma_split_whole(s: Seq<char>, d: char)
    requires
        delimiter_free(s, d),
    ensures
        split_on(s, d) == seq![s],
    decreases s.len(),
{
    if s.len() == 0 {
        assert(split_on(s, d) =~~= seq![s]);
    } else {
        lemma_split_whole(s.drop_first(), d);
        assert(seq![s.first()] + s.drop_first() =~= s);
        assert(split_on(s, d) =~~= seq![s]);
    }
}

/// Splitting a string that begins with a delimiter-free prefix `w`, then one
/// delimiter, then a tail `t`, yields `w` followed by the fragments of `t`.
pub proof fn lemma_split_concat(w: Seq<char>, t: Seq<char>, d: char)
    requires
        delimiter_free(w, d),
    ensures
        split_on(w + seq![d] + t, d) == seq![w] + split_on(t, d),
    decreases w.len(),
{
    let s = w + seq![d] + t;
    if w.len() == 0 {
        assert(s.first() == d);
        assert(s.drop_first() =~= t);
        assert(split_on(s, d) =~~= seq![w] + split_on(t, d));
    } else {
        assert(s.first() == w.first());
        assert(s.first() != d);
        assert(s.drop_first() =~= w.drop_first() + seq![d] + t);
        lemma_split_concat(w.drop_first(), t, d);
        lemma_split_len(t, d);
        let rest = split_on(s.drop_first(), d);
        assert(rest.first() == w.drop_first());
        assert(seq![s.first()] + rest.first() =~= w);
        assert(rest.drop_first() =~~= split_on(t, d));
        assert(split_on(s, d) =~~= seq![w] + split_on(t, d));
    }
}

/// Splitting undoes joining: joining one or more delimiter-free fragments
/// with `d` and splitting the result on `d` gives the fragments back.
pub proof fn lemma_split_join(frags: Seq<Seq<char>>, d: char)
    requires
        frags.len() >= 1,
        all_delimiter_free(frags, d),
    ensures
        split_on(join_with(frags, d), d) == frags,
    decreases frags.len(),
{
    if frags.len() == 1 {
        lemma_split_whole(frags.first(), d);
        assert(split_on(join_with(frags, d), d) =~~= frags);
    } else {
        assert(all_delimiter_free(frags.drop_first(), d)) by {
            assert(forall|i: int|
                0 <= i < frags.drop_first().len() ==> #[trigger] frags.drop_first()[i] == frags[
                    i + 1
                ]);
        }
        lemma_split_join(frags.drop_first(), d);
        lemma_split_concat(frags.first(), join_with(frags.drop_first(), d), d);
        assert(split_on(join_with(frags, d), d) =~~= frags);
    }
}

/// Joining with one delimiter introduces no occurrence of another character:
/// if every fragment is free of `d` and the joining delimiter `e` differs
/// from `d`, the joined string is free of `d`.
pub proof fn lemma_join_free(frags: Seq<Seq<char>>, e: char, d: char)
    requires
        d != e,
        all_delimiter_free(frags, d),
    ensures
        delimiter_free(join_with(frags, e), d),
    decreases frags.len(),
{
    if frags.len() > 1 {
        assert(all_delimiter_free(frags.drop_first(), d)) by {
            assert(forall|i: int|
                0 <= i < frags.drop_first().len() ==> #[trigger] frags.drop_first()[i] == frags[
                    i + 1
                ]);
        }
        lemma_join_free(frags.drop_first(), e, d);
    }
}

/// Joining two or more fragments places the delimiter right after the first
/// fragment, so the joined string does contain the delimiter.
pub proof fn lemma_join_has_delimiter(frags: Seq<Seq<char>>, d: char)
    requires
        frags.len() >= 2,
    ensures
        join_with(frags, d).len() > frags.first().len(),
        join_with(frags, d)[frags.first().len() as int] == d,
{
}

/// The joined string is at least as long as the first fragment.
pub proof fn lemma_join_lower_bound(frags: Seq<Seq<char>>, d: char)
    requires
        frags.len() >= 1,
    ensures
        join_with(frags, d).len() >= frags.first().len(),
{
}

/// Joining after adding one more fragment appends one delimiter (when the
/// list already held a fragment) and then the new fragment.
pub proof fn lemma_join_push(frags: Seq<Seq<char>>, f: Seq<char>, d: char)
    ensures
        frags.len() == 0 ==> join_with(frags.push(f), d) == f,
        frags.len() >= 1 ==> join_with(frags.push(f), d) == join_with(frags, d) + seq![d] + f,
    decreases frags.len(),
{
    if frags.len() == 0 {
        assert(frags.push(f).first() == f);
    } else if frags.len() == 1 {
        assert(frags.push(f).drop_first() =~~= seq![f]);
        assert(join_with(seq![f], d) == f);
        assert(frags.push(f).first() == frags.first());
    } else {
        assert(frags.push(f).drop_first() =~~= frags.drop_first().push(f));
        lemma_join_push(frags.drop_first(), f, d);
        assert(frags.push(f).first() == frags.first());
        assert(frags.first() + seq![d] + (join_with(frags.drop_first(), d) + seq![d] + f) =~= (
        frags.first() + seq![d] + join_with(frags.drop_first(), d)) + seq![d] + f);
    }
}

/// Joining whitespace-free fragments with a delimiter that is itself no
/// whitespace yields a whitespace-free string.
pub proof fn lemma_join_whitespace_free(frags: Seq<Seq<char>>, e: char)
    requires
        !is_whitespace(e),
        all_whitespace_free(frags),
    ensures
        whitespace_free(join_with(frags, e)),
    decreases frags.len(),
{
    if frags.len() > 1 {
        assert(all_whitespace_free(frags.drop_first())) by {
            assert(forall|i: int|
                0 <= i < frags.drop_first().len() ==> #[trigger] frags.drop_first()[i] == frags[
                    i + 1
                ]);
        }
        lemma_join_whitespace_free(frags.drop_first(), e);
    }
}

/// Removing whitespace from a string without whitespace changes nothing.
pub proof fn lemma_strip_whitespace_id(s: Seq<char>)
    requires
        whitespace_free(s),
    ensures
        strip_whitespace(s) == s,
    decreases s.len(),
{
    if s.len() == 0 {
        assert(strip_whitespace(s) =~= s);
    } else {
        assert(whitespace_free(s.drop_last())) by {
            assert(forall|i: int|
                0 <= i < s.drop_last().len() ==> #[trigger] s.drop_last()[i] == s[i]);
        }
        lemma_strip_whitespace_id(s.drop_last());
        assert(!is_whitespace(s.last()));
        assert(strip_whitespace(s) =~= s);
    }
}

} // verus!
