//! The delimited attribute list: an ordered, non-empty collection of typed
//! values that travels on the wire as one string, the values' string forms
//! joined by a fixed delimiter character chosen by a policy type.

use core::marker::PhantomData;
use vstd::prelude::*;

use crate::wire::{
    all_delimiter_free, all_whitespace_free, delimiter_free, is_whitespace, join_with,
    lemma_join_free, lemma_join_has_delimiter, lemma_join_lower_bound, lemma_join_push,
    lemma_join_whitespace_free, lemma_split_concat, lemma_split_join, lemma_split_whole,
    lemma_strip_whitespace_id, split_on, strip_whitespace, whitespace_free,
};

verus! {

use vstd::string::StrSliceExecFns;
use vstd::string::StringExecFns;

/// A delimiter policy: a stateless tag that selects the single character
/// separating the values of a list on the wire. Two lists of the same element
/// type under different policies are different types and cannot be mixed.
pub trait Delimiter {
    /// The delimiter character this policy selects.
    spec fn delim() -> char;

    /// The delimiter as a string of exactly one character.
    fn delimiter_symbol() -> (s: &'static str)
        ensures
            s@ == seq![Self::delim()],
    ;
}

/// The `;` delimiter policy.
#[derive(Debug, PartialEq, Default)]
pub struct Semicolon;

impl Delimiter for Semicolon {
    open spec fn delim() -> char {
        ';'
    }

    fn delimiter_symbol() -> (s: &'static str) {
        proof {
            reveal_strlit(";");
        }
        let s = ";";
        proof {
            assert(s@ =~= seq![';']);
        }
        s
    }
}

/// The `|` delimiter policy.
#[derive(Debug, PartialEq, Default)]
pub struct VerticalBar;

impl Delimiter for VerticalBar {
    open spec fn delim() -> char {
        '|'
    }

    fn delimiter_symbol() -> (s: &'static str) {
        proof {
            reveal_strlit("|");
        }
        let s = "|";
        proof {
            assert(s@ =~= seq!['|']);
        }
        s
    }
}

/// The element codec: what a value type must supply so that a list of its
/// values can ride in one delimited string. Encoding a value to its wire
/// form never fails; decoding wire text may. The codec is faithful: the wire
/// form of a value decodes back to that value.
pub trait ElementCodec: Sized + DeepView {
    /// The canonical wire form of a value whose model is `m`.
    spec fn wire_of(m: Self::V) -> Seq<char>;

    /// The model decoded from wire text `s`, or `None` when `s` is not a
    /// valid wire form for this element type.
    spec fn wire_model(s: Seq<char>) -> Option<Self::V>;

    /// The value's wire form as a string.
    fn encode_element(&self) -> (r: String)
        ensures
            r@ == Self::wire_of(self.deep_view()),
    ;

    /// The message this codec reports when wire text `s` fails its decode.
    spec fn decode_failure_message(s: Seq<char>) -> Seq<char>;

    /// The value decoded from one wire fragment, or the codec's own error
    /// message when the fragment is not a valid wire form.
    fn decode_element(s: &str) -> (r: Result<Self, String>)
        ensures
            r is Ok <==> Self::wire_model(s@) is Some,
            r is Ok ==> Self::wire_model(s@) == Some(r->Ok_0.deep_view()),
            r is Err ==> (r->Err_0)@ == Self::decode_failure_message(s@),
    ;

    /// Faithfulness: a value's canonical wire form decodes back to it.
    proof fn lemma_wire_round_trip(m: Self::V)
        ensures
            Self::wire_model(Self::wire_of(m)) == Some(m),
    ;
}

/// Plain strings are their own wire form.
impl ElementCodec for String {
    open spec fn wire_of(m: Seq<char>) -> Seq<char> {
        m
    }

    open spec fn wire_model(s: Seq<char>) -> Option<Seq<char>> {
        Some(s)
    }

    /// Decoding a string never fails, so no message is ever reported.
    open spec fn decode_failure_message(s: Seq<char>) -> Seq<char> {
        Seq::empty()
    }

    fn encode_element(&self) -> (r: String) {
        self.clone()
    }

    fn decode_element(s: &str) -> (r: Result<Self, String>) {
        Ok(String::from_str(s))
    }

    proof fn lemma_wire_round_trip(m: Seq<char>) {
    }
}

/// Booleans ride the wire as the words `true` and `false`; anything else is
/// rejected, so a list of booleans can fail fragment by fragment.
impl ElementCodec for bool {
    open spec fn wire_of(m: bool) -> Seq<char> {
        if m {
            "true"@
        } else {
            "false"@
        }
    }

    open spec fn wire_model(s: Seq<char>) -> Option<bool> {
        if s == "true"@ {
            Some(true)
        } else if s == "false"@ {
            Some(false)
        } else {
            None
        }
    }

    open spec fn decode_failure_message(s: Seq<char>) -> Seq<char> {
        "expected 'true' or 'false'"@
    }

    fn encode_element(&self) -> (r: String) {
        if *self {
            String::from_str("true")
        } else {
            String::from_str("false")
        }
    }

    fn decode_element(s: &str) -> (r: Result<Self, String>) {
        let t = String::from_str(s);
        if t == String::from_str("true") {
            Ok(true)
        } else if t == String::from_str("false") {
            Ok(false)
        } else {
            Err(String::from_str("expected 'true' or 'false'"))
        }
    }

    proof fn lemma_wire_round_trip(m: bool) {
        reveal_strlit("true");
        reveal_strlit("false");
        assert("true"@.len() != "false"@.len());
    }
}

/// Why an encode or a decode of a delimited list failed.
#[derive(Debug, Clone, PartialEq, Eq)]
pub enum CodecError {
    /// An empty list was to be encoded; the wire form requires at least one
    /// value.
    EmptyList,
    /// An empty string was to be decoded; there is no default value list.
    EmptyInput,
    /// One fragment of the wire string failed the element codec's decode;
    /// `index` is its position and `message` the codec's own message.
    ElementDecodeFailure { index: usize, message: String },
    /// The XML event stream ended, or held an unexpected event, before any
    /// character data appeared.
    MalformedStream,
}

impl CodecError {
    /// The error's text, as it is reported to the serialization frameworks.
    pub fn message(&self) -> (r: String)
        ensures
            self is EmptyList ==> r@ == "a value list can't be empty"@,
            self is EmptyInput ==> r@
                == "there is no default value list. at least one value must be specified"@,
            self matches CodecError::ElementDecodeFailure { message, .. } ==> r@ == message@,
            self is MalformedStream ==> r@ == "Unable to parse attribute"@,
    {
        match self {
            CodecError::EmptyList => String::from_str("a value list can't be empty"),
            CodecError::EmptyInput => String::from_str(
                "there is no default value list. at least one value must be specified",
            ),
            CodecError::ElementDecodeFailure { message, .. } => message.clone(),
            CodecError::MalformedStream => String::from_str("Unable to parse attribute"),
        }
    }
}

/// The wire forms of all values in `models`, in order.
pub open spec fn wires_of<T: ElementCodec>(models: Seq<T::V>) -> Seq<Seq<char>> {
    models.map_values(|m: T::V| T::wire_of(m))
}

/// The whole wire string of `models` under delimiter `d`.
pub open spec fn list_wire<T: ElementCodec>(models: Seq<T::V>, d: char) -> Seq<char> {
    join_with(wires_of::<T>(models), d)
}

/// Every fragment is a valid wire form of an element.
pub open spec fn fragments_ok<T: ElementCodec>(frags: Seq<Seq<char>>) -> bool {
    forall|i: int| 0 <= i < frags.len() ==> (#[trigger] T::wire_model(frags[i])) is Some
}

/// The models decoded from the fragments, in order.
pub open spec fn fragment_models<T: ElementCodec>(frags: Seq<Seq<char>>) -> Seq<T::V> {
    frags.map_values(|f: Seq<char>| T::wire_model(f)->0)
}

/// An ordered list of values of one element type `T`, tagged with the
/// delimiter policy `D` that its wire form uses. It is a thin ordered
/// wrapper: the interesting behaviour is in `encode` and in
/// `parse_list_with_delimiter`.
#[derive(Debug, PartialEq, Default)]
#[verifier::reject_recursive_types(D)]
pub struct AttributeList<D: Delimiter, T: ElementCodec> {
    vec: Vec<T>,
    phantom: PhantomData<D>,
}

impl<D: Delimiter, T: ElementCodec> View for AttributeList<D, T> {
    type V = Seq<T::V>;

    closed spec fn view(&self) -> Seq<T::V> {
        self.vec.deep_view()
    }
}

impl<D: Delimiter, T: ElementCodec> AttributeList<D, T> {
    /// The values held, as a sequence.
    pub closed spec fn elems(&self) -> Seq<T> {
        self.vec@
    }

    /// The list's model is the models of its values, in order.
    pub proof fn lemma_view(&self)
        ensures
            self@.len() == self.elems().len(),
            forall|i: int|
                0 <= i < self.elems().len() ==> self@[i] == #[trigger] self.elems()[i].deep_view(),
    {
    }

    /// An empty list. It holds no value yet, so it cannot be encoded before
    /// values are supplied.
    pub fn new() -> (r: Self)
        ensures
            r.elems() == Seq::<T>::empty(),
            r@ == Seq::<T::V>::empty(),
    {
        let r = AttributeList { vec: Vec::new(), phantom: PhantomData };
        proof {
            assert(r.elems() =~= Seq::<T>::empty());
            assert(r@ =~= Seq::<T::V>::empty());
        }
        r
    }

    /// A list holding the given values in the given order. Emptiness is not
    /// checked here: only encoding rejects an empty list.
    pub fn from_vec(vec: Vec<T>) -> (r: Self)
        ensures
            r.elems() == vec@,
            r@ == vec.deep_view(),
    {
        let r = AttributeList { vec, phantom: PhantomData };
        proof {
            assert(r@ =~= r.vec.deep_view());
        }
        r
    }

    /// A read-only view of the ordered values.
    pub fn vec(&self) -> (r: &Vec<T>)
        ensures
            r@ == self.elems(),
            r.deep_view() == self@,
    {
        &self.vec
    }

    /// Whether the list holds no value.
    pub fn is_empty(&self) -> (r: bool)
        ensures
            r == (self.elems().len() == 0),
            r == (self@.len() == 0),
    {
        self.vec.len() == 0
    }

    /// The list's wire string: every value's wire form, in order, joined by
    /// the policy's delimiter. An empty list has no wire form and is
    /// rejected.
    pub fn encode(&self) -> (r: Result<String, CodecError>)
        ensures
            r is Ok <==> self@.len() > 0,
            self@.len() == 0 ==> r is Err && r->Err_0 == CodecError::EmptyList,
            r is Ok ==> (r->Ok_0)@ == list_wire::<T>(self@, D::delim()),
    {
        if self.vec.len() == 0 {
            return Err(CodecError::EmptyList);
        }
        let mut out = String::new();
        let mut i: usize = 0;
        while i < self.vec.len()
            invariant
                i <= self.vec@.len(),
                out@ == list_wire::<T>(self@.subrange(0, i as int), D::delim()),
            decreases self.vec@.len() - i,
        {
            let ghost pre = self@.subrange(0, i as int);
            let w = self.vec[i].encode_element();
            if i > 0 {
                out.append(D::delimiter_symbol());
            }
            out.append(w.as_str());
            proof {
                assert(self@.subrange(0, i + 1) =~= pre.push(self@[i as int]));
                assert(wires_of::<T>(pre.push(self@[i as int])) =~~= wires_of::<T>(pre).push(
                    T::wire_of(self@[i as int]),
                ));
                lemma_join_push(wires_of::<T>(pre), T::wire_of(self@[i as int]), D::delim());
                assert(wires_of::<T>(pre).len() == i);
                if i > 0 {
                    assert(out@ =~= list_wire::<T>(pre, D::delim()) + seq![D::delim()]
                        + T::wire_of(self@[i as int]));
                } else {
                    assert(out@ =~= T::wire_of(self@[i as int]));
                }
            }
            i += 1;
        }
        proof {
            assert(self@.subrange(0, self@.len() as int) =~= self@);
        }
        Ok(out)
    }
}

/// What decoding the wire text `text` must yield; the string adapter and the
/// XML adapter share this contract. An empty input is rejected outright;
/// otherwise every whitespace character is removed from the whole text, the
/// rest is split on the delimiter, and each fragment must decode as one
/// element, in order. The first fragment that fails to decode fails the
/// whole decode, with its position and the element codec's own message.
pub open spec fn decode_post<D: Delimiter, T: ElementCodec>(
    text: Seq<char>,
    r: Result<AttributeList<D, T>, CodecError>,
) -> bool {
    &&& (text.len() == 0 <==> (r is Err && r->Err_0 == CodecError::EmptyInput))
    &&& (text.len() > 0 ==> {
        let frags = split_on(strip_whitespace(text), D::delim());
        &&& (r is Ok <==> fragments_ok::<T>(frags))
        &&& (r is Ok ==> (r->Ok_0)@ == fragment_models::<T>(frags))
        &&& (!fragments_ok::<T>(frags) ==> (r matches Err(
            CodecError::ElementDecodeFailure { index, message },
        ) && index < frags.len() && T::wire_model(frags[index as int]) is None && message@
            == T::decode_failure_message(frags[index as int]) && (forall|j: int|
            0 <= j < index ==> (#[trigger] T::wire_model(frags[j])) is Some)))
    })
}

/// Whether `c` is one of the whitespace characters that decoding removes.
fn is_whitespace_char(c: char) -> (r: bool)
    ensures
        r == is_whitespace(c),
{
    c == ' ' || c == '\t' || c == '\n' || c == '\r' || c == '\u{c}'
}

/// `v` with every whitespace character removed.
fn remove_whitespace(v: &str) -> (r: String)
    ensures
        r@ == strip_whitespace(v@),
{
    let n = v.unicode_len();
    let mut out = String::new();
    let mut i: usize = 0;
    while i < n
        invariant
            n == v@.len(),
            i <= n,
            out@ == strip_whitespace(v@.subrange(0, i as int)),
        decreases n - i,
    {
        let ghost pre = v@.subrange(0, i as int);
        let c = v.get_char(i);
        if !is_whitespace_char(c) {
            out.append(v.substring_char(i, i + 1));
        }
        proof {
            assert(v@.subrange(0, i + 1).drop_last() =~= pre);
            assert(v@.subrange(0, i + 1).last() == v@[i as int]);
            if !is_whitespace(c) {
                assert(out@ =~= strip_whitespace(pre).push(v@[i as int]));
            }
        }
        i += 1;
    }
    proof {
        assert(v@.subrange(0, n as int) =~= v@);
    }
    out
}

/// The fragments of `s` between occurrences of `d`, in order, as strings.
fn split_fragments(s: &str, d: char) -> (r: Vec<String>)
    ensures
        r.deep_view() == split_on(s@, d),
{
    let n = s.unicode_len();
    let mut frags: Vec<String> = Vec::new();
    proof {
        assert(s@.subrange(0, n as int) =~= s@);
        assert(frags.deep_view() + split_on(s@, d) =~~= split_on(s@, d));
    }
    let mut start: usize = 0;
    let mut i: usize = 0;
    while i < n
        invariant
            n == s@.len(),
            start <= i <= n,
            delimiter_free(s@.subrange(start as int, i as int), d),
            split_on(s@, d) == frags.deep_view() + split_on(
                s@.subrange(start as int, n as int),
                d,
            ),
        decreases n - i,
    {
        let ghost pre = frags.deep_view();
        let ghost w = s@.subrange(start as int, i as int);
        if s.get_char(i) == d {
            let f = String::from_str(s.substring_char(start, i));
            frags.push(f);
            proof {
                assert(s@.subrange(start as int, n as int) =~= w + seq![d] + s@.subrange(
                    i + 1,
                    n as int,
                ));
                lemma_split_concat(w, s@.subrange(i + 1, n as int), d);
                assert(frags.deep_view() =~~= pre.push(w));
                assert(frags.deep_view() + split_on(s@.subrange(i + 1, n as int), d) =~~= pre + (
                seq![w] + split_on(s@.subrange(i + 1, n as int), d)));
            }
            start = i + 1;
        } else {
            proof {
                assert(s@.subrange(start as int, i + 1) =~= w.push(s@[i as int]));
            }
        }
        i += 1;
    }
    let ghost pre = frags.deep_view();
    let ghost w = s@.subrange(start as int, n as int);
    let f = String::from_str(s.substring_char(start, n));
    frags.push(f);
    proof {
        lemma_split_whole(w, d);
        assert(frags.deep_view() =~~= pre.push(w));
        assert(pre.push(w) =~~= pre + seq![w]);
        assert(frags.deep_view() =~~= split_on(s@, d));
    }
    frags
}

/// The list decoded from the wire string `v`: the whole string is stripped
/// of whitespace, split on the policy's delimiter, and every fragment is
/// decoded as one element, in order. An empty `v` is rejected as
/// `EmptyInput`; the first fragment whose decode fails makes the whole
/// decode fail, with the fragment's position and the element codec's
/// message.
pub fn parse_list_with_delimiter<D: Delimiter, T: ElementCodec>(v: &str) -> (r: Result<
    AttributeList<D, T>,
    CodecError,
>)
    ensures
        decode_post::<D, T>(v@, r),
{
    if v.is_empty() {
        return Err(CodecError::EmptyInput);
    }
    let stripped = remove_whitespace(v);
    let frags = split_fragments(stripped.as_str(), D::delimiter_symbol().get_char(0));
    let ghost fmodels = split_on(strip_whitespace(v@), D::delim());
    let mut vals: Vec<T> = Vec::new();
    let mut i: usize = 0;
    while i < frags.len()
        invariant
            v@.len() > 0,
            fmodels == split_on(strip_whitespace(v@), D::delim()),
            frags.deep_view() == fmodels,
            i <= frags@.len(),
            forall|j: int| 0 <= j < i ==> (#[trigger] T::wire_model(fmodels[j])) is Some,
            vals.deep_view() == fmodels.subrange(0, i as int).map_values(
                |f: Seq<char>| T::wire_model(f)->0,
            ),
        decreases frags@.len() - i,
    {
        let ghost pre = vals.deep_view();
        match T::decode_element(frags[i].as_str()) {
            Ok(val) => {
                vals.push(val);
                proof {
                    assert(frags@[i as int]@ == fmodels[i as int]);
                    assert(vals.deep_view() =~~= pre.push(val.deep_view()));
                    assert(fmodels.subrange(0, i + 1) =~= fmodels.subrange(0, i as int).push(
                        fmodels[i as int],
                    ));
                    assert(vals.deep_view() =~~= fmodels.subrange(0, i + 1).map_values(
                        |f: Seq<char>| T::wire_model(f)->0,
                    ));
                }
            },
            Err(m) => {
                proof {
                    assert(frags@[i as int]@ == fmodels[i as int]);
                }
                return Err(CodecError::ElementDecodeFailure { index: i, message: m });
            },
        }
        i += 1;
    }
    proof {
        assert(fmodels.subrange(0, fmodels.len() as int) =~= fmodels);
        assert(vals.deep_view() =~~= fragment_models::<T>(fmodels));
    }
    Ok(AttributeList::from_vec(vals))
}

/// A wire form that survives the trip through one delimited string under
/// delimiter `d`: it is not empty, it holds no occurrence of the delimiter,
/// and it holds no whitespace (decoding removes every whitespace character
/// from the whole wire string before splitting).
pub open spec fn element_wire_ok(w: Seq<char>, d: char) -> bool {
    &&& w.len() > 0
    &&& delimiter_free(w, d)
    &&& whitespace_free(w)
}

/// Every value's wire form survives the trip under delimiter `d`.
pub open spec fn all_wires_ok<T: ElementCodec>(models: Seq<T::V>, d: char) -> bool {
    forall|i: int|
        0 <= i < models.len() ==> element_wire_ok(T::wire_of(#[trigger] models[i]), d)
}

/// Round trip: for one or more values whose wire forms survive the trip,
/// the wire string that `encode` produces is non-empty, is unchanged by
/// whitespace removal, splits back into exactly the values' wire forms, and
/// decodes back to exactly the same values, as `parse_list_with_delimiter`
/// promises through these same spec functions.
pub proof fn lemma_round_trip<T: ElementCodec>(models: Seq<T::V>, d: char)
    requires
        models.len() >= 1,
        all_wires_ok::<T>(models, d),
        !is_whitespace(d),
    ensures
        list_wire::<T>(models, d).len() > 0,
        strip_whitespace(list_wire::<T>(models, d)) == list_wire::<T>(models, d),
        fragments_ok::<T>(split_on(list_wire::<T>(models, d), d)),
        fragment_models::<T>(split_on(list_wire::<T>(models, d), d)) == models,
{
    let frags = wires_of::<T>(models);
    let w = list_wire::<T>(models, d);
    assert(all_delimiter_free(frags, d));
    assert(all_whitespace_free(frags));
    lemma_join_lower_bound(frags, d);
    assert(frags.first() == T::wire_of(models.first()));
    lemma_join_whitespace_free(frags, d);
    lemma_strip_whitespace_id(w);
    lemma_split_join(frags, d);
    assert forall|i: int| 0 <= i < frags.len() implies (#[trigger] T::wire_model(
        frags[i],
    )) is Some by {
        T::lemma_wire_round_trip(models[i]);
    }
    assert forall|i: int| 0 <= i < frags.len() implies #[trigger] fragment_models::<T>(frags)[i]
        == models[i] by {
        T::lemma_wire_round_trip(models[i]);
    }
    assert(fragment_models::<T>(split_on(w, d)) =~= models);
}

/// Decoding is insensitive to whitespace: two non-empty inputs whose
/// characters agree once every whitespace character is removed are split
/// into the same fragments, so `parse_list_with_delimiter` succeeds or fails
/// on them alike and yields the same values.
pub proof fn lemma_decode_whitespace_insensitive<T: ElementCodec>(
    s1: Seq<char>,
    s2: Seq<char>,
    d: char,
)
    requires
        s1.len() > 0,
        s2.len() > 0,
        strip_whitespace(s1) == strip_whitespace(s2),
    ensures
        split_on(strip_whitespace(s1), d) == split_on(strip_whitespace(s2), d),
        fragments_ok::<T>(split_on(strip_whitespace(s1), d)) == fragments_ok::<T>(
            split_on(strip_whitespace(s2), d),
        ),
        fragment_models::<T>(split_on(strip_whitespace(s1), d)) == fragment_models::<T>(
            split_on(strip_whitespace(s2), d),
        ),
{
}

/// Two delimiter policies tell wire strings apart: two or more values whose
/// wire forms are free of the first delimiter produce different wire
/// strings under the two delimiters. (One single value produces the same
/// wire string under every policy: its own wire form.)
pub proof fn lemma_policies_differ<T: ElementCodec>(models: Seq<T::V>, d1: char, d2: char)
    requires
        d1 != d2,
        models.len() >= 2,
        all_delimiter_free(wires_of::<T>(models), d1),
    ensures
        list_wire::<T>(models, d1) != list_wire::<T>(models, d2),
{
    let frags = wires_of::<T>(models);
    lemma_join_has_delimiter(frags, d1);
    assert(all_delimiter_free(frags, d1));
    lemma_join_free(frags, d2, d1);
    let k = frags.first().len() as int;
    assert(join_with(frags, d1)[k] == d1);
    if join_with(frags, d1) == join_with(frags, d2) {
        assert(join_with(frags, d2)[k] != d1);
    }
}

/// A single-valued wire string: a non-empty input without the delimiter is
/// one single fragment after whitespace removal, so a successful decode
/// yields a list of exactly one value.
pub proof fn lemma_single_value<T: ElementCodec>(s: Seq<char>, d: char)
    requires
        s.len() > 0,
        delimiter_free(strip_whitespace(s), d),
    ensures
        split_on(strip_whitespace(s), d) == seq![strip_whitespace(s)],
        fragment_models::<T>(split_on(strip_whitespace(s), d)).len() == 1,
        fragments_ok::<T>(split_on(strip_whitespace(s), d)) <==> T::wire_model(
            strip_whitespace(s),
        ) is Some,
        T::wire_model(strip_whitespace(s)) is Some ==> fragment_models::<T>(
            split_on(strip_whitespace(s), d),
        ) == seq![T::wire_model(strip_whitespace(s))->0],
{
    lemma_split_whole(strip_whitespace(s), d);
    let frags = split_on(strip_whitespace(s), d);
    assert(frags[0] == strip_whitespace(s));
    if T::wire_model(strip_whitespace(s)) is Some {
        assert forall|i: int| 0 <= i < frags.len() implies (#[trigger] T::wire_model(
            frags[i],
        )) is Some by {
            assert(frags[i] == strip_whitespace(s));
        }
    }
    assert(fragment_models::<T>(seq![strip_whitespace(s)]) =~= seq![
        T::wire_model(strip_whitespace(s))->0,
    ]);
}

} // verus!
