//! Header fields and ordered header lists with case-insensitive lookup.

use vstd::prelude::*;
use vstd::string::*;
use vstd::utf8::is_ascii_chars;
use crate::chars::{fold, fold_text};

verus! {

/// Media type of plain text.
pub const CT_TEXT_PLAIN: &'static str = "text/plain";

/// Media type of arbitrary bytes.
pub const CT_APP_OCTET_STREAM: &'static str = "application/octet-stream";

/// The content coding that responses may be compressed with.
pub const ENCODING_GZIP: &'static str = "gzip";

/// Request header that lists the content codings a client accepts.
pub const HDR_ACCEPT_ENCODING: &'static str = "Accept-Encoding";

/// Response header that names the content coding of the body.
pub const HDR_CONTENT_ENCODING: &'static str = "Content-Encoding";

/// Header that gives the length of the body in bytes.
pub const HDR_CONTENT_LENGTH: &'static str = "Content-Length";

/// Header that gives the media type of the body.
pub const HDR_CONTENT_TYPE: &'static str = "Content-Type";

/// Request header that identifies the client software.
pub const HDR_USER_AGENT: &'static str = "User-Agent";

/// The method of a request that reads a resource.
pub const METHOD_GET: &'static str = "GET";

/// The method of a request that submits a resource.
pub const METHOD_POST: &'static str = "POST";

/// What a header field is, as text: its name and its value.
pub struct HeaderView {
    pub name: Seq<char>,
    pub value: Seq<char>,
}

/// One header field.
#[derive(Clone, Debug)]
pub struct HttpHeader {
    pub name: String,
    pub value: String,
}

impl View for HttpHeader {
    type V = HeaderView;

    open spec fn view(&self) -> HeaderView {
        HeaderView { name: self.name@, value: self.value@ }
    }
}

impl HttpHeader {
    /// A header field with the given name and value.
    pub fn new(name: String, value: String) -> (h: HttpHeader)
        ensures
            h.name == name,
            h.value == value,
    {
        HttpHeader { name, value }
    }

    /// The field as it is written on one line: name, colon, space, value.
    pub fn to_string(&self) -> (s: String)
        ensures
            s@ == self.name@ + ": "@ + self.value@,
    {
        let mut s = self.name.clone();
        s.append(": ");
        s.append(self.value.as_str());
        s
    }

    /// A copy of the field.
    pub fn duplicate(&self) -> (h: HttpHeader)
        ensures
            h@ == self@,
    {
        HttpHeader { name: self.name.clone(), value: self.value.clone() }
    }
}

/// The fields of a header list as text, in order.
pub open spec fn header_views(hs: Seq<HttpHeader>) -> Seq<HeaderView> {
    Seq::new(hs.len(), |i: int| hs[i]@)
}

/// Two header names are the same name when their lower-case forms are equal.
pub open spec fn same_name(a: Seq<char>, b: Seq<char>) -> bool {
    fold(a) == fold(b)
}

/// The texts of the strings of `v`, in order.
pub open spec fn texts(v: Seq<String>) -> Seq<Seq<char>> {
    Seq::new(v.len(), |i: int| v[i]@)
}

/// The index of the first of `names` at or after `from` that is `target`.
pub open spec fn index_from(names: Seq<Seq<char>>, target: Seq<char>, from: int) -> Option<int>
    decreases names.len() - from,
{
    if from < 0 || from >= names.len() {
        None
    } else if names[from] == target {
        Some(from)
    } else {
        index_from(names, target, from + 1)
    }
}

/// The index of the first of `names` that is `target`.
pub open spec fn index_of(names: Seq<Seq<char>>, target: Seq<char>) -> Option<int> {
    index_from(names, target, 0)
}

/// The names of the fields in lower case, in order.
pub open spec fn folded(hs: Seq<HeaderView>) -> Seq<Seq<char>> {
    Seq::new(hs.len(), |i: int| fold(hs[i].name))
}

/// The index of the first field of the list whose name is `name`, both
/// taken in lower case.
pub open spec fn position(hs: Seq<HeaderView>, name: Seq<char>) -> Option<int> {
    index_of(folded(hs), fold(name))
}

/// The value of the first field of the list whose name is `name`.
pub open spec fn value_of(hs: Seq<HeaderView>, name: Seq<char>) -> Option<Seq<char>> {
    match position(hs, name) {
        Some(i) => Some(hs[i].value),
        None => None,
    }
}

/// The list after `name` was given the value `value`: the first field of
/// that name keeps its place and its spelling and gets the new value; where
/// there is none, a new field is added at the end.
pub open spec fn put(hs: Seq<HeaderView>, name: Seq<char>, value: Seq<char>) -> Seq<HeaderView> {
    match position(hs, name) {
        Some(i) => hs.update(i, HeaderView { name: hs[i].name, value: value }),
        None => hs.push(HeaderView { name: name, value: value }),
    }
}

/// The list without the first field whose name is `name`.
pub open spec fn remove_first(hs: Seq<HeaderView>, name: Seq<char>) -> Seq<HeaderView> {
    match position(hs, name) {
        Some(i) => hs.remove(i),
        None => hs,
    }
}

/// The list without any field whose name is `name`, the others in order.
pub open spec fn without(hs: Seq<HeaderView>, name: Seq<char>) -> Seq<HeaderView>
    decreases hs.len(),
{
    if hs.len() == 0 {
        Seq::empty()
    } else if same_name(hs.last().name, name) {
        without(hs.drop_last(), name)
    } else {
        without(hs.drop_last(), name).push(hs.last())
    }
}

/// Two header names of different length, both ASCII, are different names.
pub proof fn lemma_names_differ_in_length(a: Seq<char>, b: Seq<char>)
    requires
        is_ascii_chars(a),
        is_ascii_chars(b),
        a.len() != b.len(),
    ensures
        !same_name(a, b),
{
    assert(fold(a).len() == a.len());
    assert(fold(b).len() == b.len());
}

/// `Content-Type`, `Content-Length` and `Content-Encoding` are three
/// different names.
pub proof fn lemma_content_names_differ()
    ensures
        !same_name(HDR_CONTENT_LENGTH@, HDR_CONTENT_ENCODING@),
        !same_name(HDR_CONTENT_ENCODING@, HDR_CONTENT_LENGTH@),
        !same_name(HDR_CONTENT_TYPE@, HDR_CONTENT_LENGTH@),
        !same_name(HDR_CONTENT_TYPE@, HDR_CONTENT_ENCODING@),
{
    reveal_strlit("Content-Type");
    reveal_strlit("Content-Length");
    reveal_strlit("Content-Encoding");
    assert(HDR_CONTENT_TYPE@.len() == 12);
    assert(HDR_CONTENT_LENGTH@.len() == 14);
    assert(HDR_CONTENT_ENCODING@.len() == 16);
    assert(is_ascii_chars(HDR_CONTENT_TYPE@));
    assert(is_ascii_chars(HDR_CONTENT_LENGTH@));
    assert(is_ascii_chars(HDR_CONTENT_ENCODING@));
    lemma_names_differ_in_length(HDR_CONTENT_LENGTH@, HDR_CONTENT_ENCODING@);
    lemma_names_differ_in_length(HDR_CONTENT_TYPE@, HDR_CONTENT_LENGTH@);
    lemma_names_differ_in_length(HDR_CONTENT_TYPE@, HDR_CONTENT_ENCODING@);
}

/// What [`index_from`] returns is the first place at or after `from` where
/// `target` stands, and it returns `None` only where it stands nowhere.
pub proof fn lemma_index_from(names: Seq<Seq<char>>, target: Seq<char>, from: int)
    requires
        0 <= from,
    ensures
        match index_from(names, target, from) {
            Some(i) => from <= i < names.len() && names[i] == target && forall|j: int|
                from <= j < i ==> names[j] != target,
            None => forall|j: int| from <= j < names.len() ==> names[j] != target,
        },
    decreases names.len() - from,
{
    if from < names.len() && names[from] != target {
        lemma_index_from(names, target, from + 1);
    }
}

/// What [`position`] returns is the first field with that name, and it
/// returns `None` only where no field has it.
pub proof fn lemma_position(hs: Seq<HeaderView>, name: Seq<char>)
    ensures
        match position(hs, name) {
            Some(i) => 0 <= i < hs.len() && same_name(hs[i].name, name) && forall|j: int|
                0 <= j < i ==> !same_name(#[trigger] hs[j].name, name),
            None => forall|j: int| 0 <= j < hs.len() ==> !same_name(#[trigger] hs[j].name, name),
        },
{
    let names = folded(hs);
    lemma_index_from(names, fold(name), 0);
    match position(hs, name) {
        Some(i) => {
            assert(names[i] == fold(hs[i].name));
            assert forall|j: int| 0 <= j < i implies !same_name(#[trigger] hs[j].name, name) by {
                assert(names[j] == fold(hs[j].name));
            }
        },
        None => {
            assert forall|j: int| 0 <= j < hs.len() implies !same_name(
                #[trigger] hs[j].name,
                name,
            ) by {
                assert(names[j] == fold(hs[j].name));
            }
        },
    }
}

/// Where the first field of a list has the name, its value is the value
/// that the list holds under the name.
pub proof fn lemma_first_header(hs: Seq<HeaderView>, name: Seq<char>)
    requires
        hs.len() > 0,
        same_name(hs[0].name, name),
    ensures
        position(hs, name) == Some(0int),
        value_of(hs, name) == Some(hs[0].value),
{
    assert(folded(hs)[0] == fold(hs[0].name));
}

/// The first field with a name is the one that [`position`] returns.
pub proof fn lemma_position_is(hs: Seq<HeaderView>, name: Seq<char>, i: int)
    requires
        0 <= i < hs.len(),
        same_name(hs[i].name, name),
        forall|j: int| 0 <= j < i ==> !same_name(#[trigger] hs[j].name, name),
    ensures
        position(hs, name) == Some(i),
{
    lemma_position(hs, name);
}

/// Where no field has the name, [`position`] returns `None`.
pub proof fn lemma_position_none(hs: Seq<HeaderView>, name: Seq<char>)
    requires
        forall|j: int| 0 <= j < hs.len() ==> !same_name(#[trigger] hs[j].name, name),
    ensures
        position(hs, name) is None,
{
    lemma_position(hs, name);
}

/// After [`put`] the name is present, and its first field has the value.
pub proof fn lemma_put_value(hs: Seq<HeaderView>, name: Seq<char>, value: Seq<char>)
    ensures
        value_of(put(hs, name, value), name) == Some(value),
{
    lemma_position(hs, name);
    let out = put(hs, name, value);
    match position(hs, name) {
        Some(i) => {
            assert forall|j: int| 0 <= j < i implies !same_name(#[trigger] out[j].name, name) by {
                assert(out[j] == hs[j]);
            }
            lemma_position_is(out, name, i);
        },
        None => {
            assert forall|j: int| 0 <= j < hs.len() implies !same_name(
                #[trigger] out[j].name,
                name,
            ) by {
                assert(out[j] == hs[j]);
            }
            lemma_position_is(out, name, hs.len() as int);
        },
    }
}

/// [`put`] does not change what the list holds under another name.
pub proof fn lemma_put_other(
    hs: Seq<HeaderView>,
    name: Seq<char>,
    value: Seq<char>,
    other: Seq<char>,
)
    requires
        !same_name(name, other),
    ensures
        value_of(put(hs, name, value), other) == value_of(hs, other),
{
    let out = put(hs, name, value);
    lemma_position(hs, name);
    lemma_position(hs, other);
    assert forall|j: int| 0 <= j < hs.len() implies (same_name(#[trigger] out[j].name, other)
        == same_name(hs[j].name, other)) by {}
    match position(hs, other) {
        Some(i) => {
            assert forall|j: int| 0 <= j < i implies !same_name(#[trigger] out[j].name, other) by {
                assert(same_name(out[j].name, other) == same_name(hs[j].name, other));
            }
            assert(same_name(out[i].name, other) == same_name(hs[i].name, other));
            lemma_position_is(out, other, i);
            assert(out[i].value == hs[i].value);
        },
        None => {
            assert forall|j: int| 0 <= j < out.len() implies !same_name(
                #[trigger] out[j].name,
                other,
            ) by {
                if j < hs.len() {
                    assert(same_name(out[j].name, other) == same_name(hs[j].name, other));
                }
            }
            lemma_position_none(out, other);
        },
    }
}

/// Every field of [`without`] is a field of the list, and none has the name.
pub proof fn lemma_without_fields(hs: Seq<HeaderView>, name: Seq<char>)
    ensures
        forall|j: int|
            0 <= j < without(hs, name).len() ==> hs.contains(#[trigger] without(hs, name)[j])
                && !same_name(without(hs, name)[j].name, name),
    decreases hs.len(),
{
    if hs.len() > 0 {
        lemma_without_fields(hs.drop_last(), name);
        let w = without(hs, name);
        let v = without(hs.drop_last(), name);
        assert forall|j: int| 0 <= j < w.len() implies hs.contains(#[trigger] w[j]) && !same_name(
            w[j].name,
            name,
        ) by {
            if j < v.len() {
                assert(w[j] == v[j]);
                let k = choose|k: int| 0 <= k < hs.drop_last().len() && hs.drop_last()[k] == v[j];
                assert(hs[k] == v[j]);
            } else {
                assert(w[j] == hs.last());
                assert(hs[hs.len() - 1] == w[j]);
            }
        }
    }
}

/// Where no field has the name, [`without`] leaves the list as it is.
pub proof fn lemma_without_nothing(hs: Seq<HeaderView>, name: Seq<char>)
    requires
        position(hs, name) is None,
    ensures
        without(hs, name) == hs,
    decreases hs.len(),
{
    lemma_position(hs, name);
    if hs.len() == 0 {
        assert(without(hs, name) =~= hs);
    } else {
        let shorter = hs.drop_last();
        assert forall|j: int| 0 <= j < shorter.len() implies !same_name(
            #[trigger] shorter[j].name,
            name,
        ) by {
            assert(shorter[j] == hs[j]);
        }
        lemma_position_none(shorter, name);
        lemma_without_nothing(shorter, name);
        assert(!same_name(hs[hs.len() - 1].name, name));
        assert(shorter.push(hs.last()) =~= hs);
    }
}

/// After [`without`] the name is absent, and a name that was absent before
/// is still absent.
pub proof fn lemma_without_absent(hs: Seq<HeaderView>, name: Seq<char>, other: Seq<char>)
    ensures
        position(without(hs, name), name) is None,
        position(hs, other) is None ==> position(without(hs, name), other) is None,
{
    lemma_without_fields(hs, name);
    let w = without(hs, name);
    lemma_position_none(w, name);
    if position(hs, other) is None {
        lemma_position(hs, other);
        assert forall|j: int| 0 <= j < w.len() implies !same_name(#[trigger] w[j].name, other) by {
            assert(hs.contains(w[j]));
            let k = choose|k: int| 0 <= k < hs.len() && hs[k] == w[j];
            assert(!same_name(hs[k].name, other));
        }
        lemma_position_none(w, other);
    }
}

/// Whether two header names are the same name.
pub fn names_match(a: &str, b: &str) -> (r: bool)
    ensures
        r == same_name(a@, b@),
{
    let la = fold_text(a);
    let lb = fold_text(b);
    la == lb
}

/// The index of the first of `names` that is `target`.
pub fn index_of_text(names: &Vec<String>, target: &String) -> (r: Option<usize>)
    ensures
        match r {
            Some(i) => i < names@.len() && index_of(texts(names@), target@) == Some(i as int),
            None => index_of(texts(names@), target@) is None,
        },
{
    let ghost all = texts(names@);
    let mut i: usize = 0;
    while i < names.len()
        invariant
            i <= names@.len(),
            all == texts(names@),
            index_of(all, target@) == index_from(all, target@, i as int),
        decreases names@.len() - i,
    {
        assert(all[i as int] == names@[i as int]@);
        if names[i] == *target {
            return Some(i);
        }
        i = i + 1;
    }
    None
}

/// The names of the fields in lower case, in order.
pub fn folded_names(headers: &Vec<HttpHeader>) -> (names: Vec<String>)
    ensures
        texts(names@) == folded(header_views(headers@)),
{
    let mut names: Vec<String> = Vec::new();
    let mut i: usize = 0;
    while i < headers.len()
        invariant
            i <= headers@.len(),
            names@.len() == i,
            forall|j: int| 0 <= j < i ==> names@[j]@ == fold(headers@[j].name@),
        decreases headers@.len() - i,
    {
        names.push(fold_text(headers[i].name.as_str()));
        i = i + 1;
    }
    assert(texts(names@) =~= folded(header_views(headers@)));
    names
}

/// The index of the first field of `headers` whose name is `name`, compared
/// without regard to case.
pub fn header_index(headers: &Vec<HttpHeader>, name: &str) -> (r: Option<usize>)
    ensures
        match r {
            Some(i) => i < headers@.len() && position(header_views(headers@), name@) == Some(
                i as int,
            ),
            None => position(header_views(headers@), name@) is None,
        },
{
    let names = folded_names(headers);
    let target = fold_text(name);
    index_of_text(&names, &target)
}

/// Removes every field whose name is `name` from `headers`.
pub fn remove_all(headers: &mut Vec<HttpHeader>, name: &str)
    ensures
        header_views(final(headers)@) == without(header_views(old(headers)@), name@),
{
    let mut kept: Vec<HttpHeader> = Vec::new();
    let mut all: Vec<HttpHeader> = Vec::new();
    std::mem::swap(&mut all, headers);
    let ghost views = header_views(all@);
    let mut i: usize = 0;
    assert(views.take(0) =~= Seq::<HeaderView>::empty());
    while i < all.len()
        invariant
            i <= all@.len(),
            views == header_views(all@),
            header_views(kept@) == without(views.take(i as int), name@),
        decreases all@.len() - i,
    {
        let ghost before = header_views(kept@);
        assert(views.take(i + 1).drop_last() =~= views.take(i as int));
        assert(views.take(i + 1).last() == all@[i as int]@);
        if !names_match(all[i].name.as_str(), name) {
            kept.push(all[i].duplicate());
            assert(header_views(kept@) =~= before.push(all@[i as int]@));
        }
        i = i + 1;
    }
    assert(views.take(i as int) =~= views);
    *headers = kept;
}

} // verus!
