//! Requests: the parsed form of one HTTP/1.1 request and what it says about
//! the encodings its sender accepts.

use vstd::prelude::*;
use vstd::string::*;
use vstd::utf8::is_ascii_chars;
use crate::chars::{
    ascii_lower, chars_of, fold, fold_text, lemma_trim_is_stretch, lemma_trim_nothing,
    same_chars, space, split_chars, trim, trim_bounds,
};
use crate::header::{
    header_index, header_views, lemma_first_header, position, value_of, HeaderView, HttpHeader,
    ENCODING_GZIP, HDR_ACCEPT_ENCODING,
};
use crate::text::{lemma_split_elements, lemma_split_first, lemma_split_whole, split, views};

verus! {

/// What a request is, as text and bytes.
pub struct RequestView {
    pub method: Seq<char>,
    pub path: Seq<char>,
    pub version: Seq<char>,
    pub headers: Seq<HeaderView>,
    pub body: Option<Seq<u8>>,
}

/// One parsed request. The path holds query and fragment as they were sent.
#[derive(Clone, Debug)]
pub struct HttpRequest {
    pub method: String,
    pub path: String,
    pub version: String,
    pub headers: Vec<HttpHeader>,
    pub body: Option<Vec<u8>>,
}

impl View for HttpRequest {
    type V = RequestView;

    open spec fn view(&self) -> RequestView {
        RequestView {
            method: self.method@,
            path: self.path@,
            version: self.version@,
            headers: header_views(self.headers@),
            body: match self.body {
                Some(b) => Some(b@),
                None => None,
            },
        }
    }
}

/// Whether `token` is an item of the comma-separated list `list`: the list
/// is cut at commas, and one of the pieces, without the white space around
/// it, is `token`.
pub open spec fn has_item(list: Seq<char>, token: Seq<char>) -> bool {
    let parts = split(list, ',');
    exists|k: int| 0 <= k < parts.len() && trim(#[trigger] parts[k]) == token
}

/// Whether the value of an `Accept-Encoding` header lists `encoding`, both
/// taken in lower case.
pub open spec fn lists_encoding(value: Seq<char>, encoding: Seq<char>) -> bool {
    has_item(fold(value), fold(encoding))
}

/// An item of a list is made of characters of the list.
pub proof fn lemma_item_characters(list: Seq<char>, token: Seq<char>)
    requires
        has_item(list, token),
    ensures
        forall|j: int| 0 <= j < token.len() ==> list.contains(#[trigger] token[j]),
{
    let parts = split(list, ',');
    let k = choose|k: int| 0 <= k < parts.len() && trim(#[trigger] parts[k]) == token;
    lemma_trim_is_stretch(parts[k]);
    lemma_split_elements(list, ',');
    assert forall|j: int| 0 <= j < token.len() implies list.contains(#[trigger] token[j]) by {
        assert(parts[k].contains(trim(parts[k])[j]));
        let i = choose|i: int| 0 <= i < parts[k].len() && parts[k][i] == token[j];
        assert(list.contains(parts[k][i]));
    }
}

/// What stands before the first comma of a list is an item of it, if it
/// neither begins nor ends with white space; and so is a list without a
/// comma of itself.
pub proof fn lemma_first_item(token: Seq<char>, rest: Seq<char>)
    requires
        token.len() > 0,
        !token.contains(','),
        !space(token[0]),
        !space(token.last()),
    ensures
        has_item(token + seq![','] + rest, token),
        has_item(token, token),
{
    lemma_trim_nothing(token);
    lemma_split_first(token, ',', rest);
    let parts = split(token + seq![','] + rest, ',');
    assert(trim(parts[0]) == token);
    lemma_split_whole(token, ',');
    let alone = split(token, ',');
    assert(trim(alone[0]) == token);
}

/// A value lists an encoding only if every character of the encoding, in
/// lower case, stands in the value in lower case.
pub proof fn lemma_listed_characters(value: Seq<char>, encoding: Seq<char>)
    requires
        lists_encoding(value, encoding),
    ensures
        forall|j: int|
            0 <= j < fold(encoding).len() ==> fold(value).contains(#[trigger] fold(encoding)[j]),
{
    lemma_item_characters(fold(value), fold(encoding));
}

/// A request whose first header is `Accept-Encoding` declares support for
/// an encoding exactly where the value of that header lists it.
pub proof fn lemma_accepts_by_first_header(hs: Seq<HeaderView>, encoding: Seq<char>)
    requires
        hs.len() > 0,
        hs[0].name == HDR_ACCEPT_ENCODING@,
    ensures
        accepts_encoding(hs, encoding) == lists_encoding(hs[0].value, encoding),
{
    lemma_first_header(hs, HDR_ACCEPT_ENCODING@);
}

/// The value `gzip, deflate` lists gzip, and the value `identity` does
/// not.
pub proof fn lemma_gzip_listed()
    ensures
        lists_encoding("gzip, deflate"@, ENCODING_GZIP@),
        lists_encoding("gzip"@, ENCODING_GZIP@),
        !lists_encoding("identity"@, ENCODING_GZIP@),
{
    reveal_strlit("gzip, deflate");
    reveal_strlit("gzip");
    reveal_strlit(" deflate");
    reveal_strlit("identity");
    let token = "gzip"@;
    assert(ENCODING_GZIP@ == token);
    assert(is_ascii_chars(token));
    assert(is_ascii_chars("gzip, deflate"@));
    assert(is_ascii_chars("identity"@));
    assert(fold(token) =~= token);
    assert(fold("gzip, deflate"@) =~= token + seq![','] + " deflate"@);
    assert(!token.contains(',')) by {
        if token.contains(',') {
            let i = choose|i: int| 0 <= i < token.len() && token[i] == ',';
        }
    }
    lemma_first_item(token, " deflate"@);
    if lists_encoding("identity"@, ENCODING_GZIP@) {
        lemma_listed_characters("identity"@, ENCODING_GZIP@);
        let folded = fold("identity"@);
        assert(folded.contains(token[0]));
        let i = choose|i: int| 0 <= i < folded.len() && folded[i] == token[0];
        assert(folded[i] == ascii_lower("identity"@[i]));
    }
}

/// Whether `token` is an item of the comma-separated list `list`.
pub fn list_has_item(list: &str, token: &str) -> (b: bool)
    ensures
        b == has_item(list@, token@),
{
    let chars = chars_of(list);
    let parts = split_chars(&chars, ',');
    let target = chars_of(token);
    let ghost pieces = split(list@, ',');
    let mut k: usize = 0;
    while k < parts.len()
        invariant
            k <= parts@.len(),
            views(parts@) == pieces,
            pieces == split(list@, ','),
            target@ == token@,
            forall|j: int| 0 <= j < k ==> trim(#[trigger] pieces[j]) != token@,
        decreases parts@.len() - k,
    {
        let (lo, hi) = trim_bounds(&parts[k]);
        assert(views(parts@)[k as int] == parts@[k as int]@);
        if same_chars(&parts[k], lo, hi, &target) {
            assert(trim(pieces[k as int]) == token@);
            return true;
        }
        k = k + 1;
    }
    false
}

/// Whether a header list declares support for `encoding`: its first
/// `Accept-Encoding` field lists it.
pub open spec fn accepts_encoding(hs: Seq<HeaderView>, encoding: Seq<char>) -> bool {
    match value_of(hs, HDR_ACCEPT_ENCODING@) {
        Some(v) => lists_encoding(v, encoding),
        None => false,
    }
}

impl HttpRequest {
    /// The first header whose name is `name`, compared without regard to
    /// case.
    pub fn get_header(&self, name: &str) -> (r: Option<&HttpHeader>)
        ensures
            match r {
                Some(h) => match position(self@.headers, name@) {
                    Some(i) => 0 <= i < self.headers@.len() && *h == self.headers@[i],
                    None => false,
                },
                None => position(self@.headers, name@) is None,
            },
    {
        match header_index(&self.headers, name) {
            Some(i) => Some(&self.headers[i]),
            None => None,
        }
    }

    /// Whether the request declares support for the content coding
    /// `encoding` in its `Accept-Encoding` header.
    pub fn supports_encoding(&self, encoding: &str) -> (b: bool)
        ensures
            b == accepts_encoding(self@.headers, encoding@),
    {
        match self.get_header(HDR_ACCEPT_ENCODING) {
            Some(header) => {
                let list = fold_text(header.value.as_str());
                let token = fold_text(encoding);
                list_has_item(list.as_str(), token.as_str())
            },
            None => false,
        }
    }
}

/// One request together with the directory that stored files live in, for
/// the time it takes to answer the request.
#[derive(Debug)]
pub struct HttpRequestContext {
    pub request: HttpRequest,
    pub file_directory: String,
}

impl HttpRequestContext {
    /// Binds a request to the storage directory.
    pub fn new(request: HttpRequest, file_directory: String) -> (c: HttpRequestContext)
        ensures
            c.request == request,
            c.file_directory == file_directory,
    {
        HttpRequestContext { request, file_directory }
    }
}

} // verus!
