//! Reading a request: method, path, query parameters and form parameters.
//!
//! The text of a request is cut at the first blank line (`\r\n\r\n`) into a
//! head and a body. The first two words of the head are the method and the
//! target; the target is cut at its first `?` into the path and the query.
//! Query and body are lists of `key=value` pieces separated by `&`; a piece
//! that does not hold exactly one `=` is left out, and of two pieces with
//! one key the later one counts. Nothing is percent-decoded, and the header
//! lines are not looked at.

use crate::search::{contains, find, find_first, lemma_find};
use crate::strmap::{
    Pair, StringMap, distinct_keys, is_last_write, lemma_put_all, map_of, put_all, writes_key,
};
use crate::text::{chars_of, count, lemma_split_len, split, split_text, split_words, texts, words};
use vstd::prelude::*;
use vstd::utf8::{decode_utf8, valid_utf8};

verus! {

/// A parsed request.
#[derive(Debug)]
pub struct Request {
    pub method: String,
    pub path: String,
    pub query_params: StringMap,
    pub body_params: StringMap,
}

/// What a request says, as plain values.
pub struct RequestModel {
    pub method: Seq<char>,
    pub path: Seq<char>,
    pub query_params: Map<Seq<char>, Seq<char>>,
    pub body_params: Map<Seq<char>, Seq<char>>,
}

impl View for Request {
    type V = RequestModel;

    open spec fn view(&self) -> RequestModel {
        RequestModel {
            method: self.method@,
            path: self.path@,
            query_params: self.query_params@,
            body_params: self.body_params@,
        }
    }
}

/// Why a text is no request.
#[derive(Clone, Copy, Debug, PartialEq, Eq)]
pub enum RequestError {
    /// The text holds no blank line, so head and body cannot be told apart.
    MalformedRequest,
    /// The head holds fewer than two words: the method or the target is
    /// missing.
    MissingTarget,
}

/// The blank line between head and body.
pub open spec fn boundary() -> Seq<char> {
    seq!['\r', '\n', '\r', '\n']
}

/// Whether a piece gives a parameter: it is a key and a value with one `=`
/// between them.
pub open spec fn is_pair(piece: Seq<char>) -> bool {
    split(piece, '=').len() == 2
}

/// The key of a piece that gives a parameter: what stands before its `=`.
pub open spec fn pair_key(piece: Seq<char>) -> Seq<char> {
    split(piece, '=')[0]
}

/// The value of a piece that gives a parameter: what stands after its `=`.
pub open spec fn pair_value(piece: Seq<char>) -> Seq<char> {
    split(piece, '=')[1]
}

/// What each piece writes: a piece with one `=` sets its key to its value,
/// every other piece writes nothing.
pub open spec fn piece_writes(pieces: Seq<Seq<char>>) -> Seq<Option<Pair>> {
    Seq::new(
        pieces.len(),
        |i: int|
            if is_pair(pieces[i]) {
                Some((pair_key(pieces[i]), pair_value(pieces[i])))
            } else {
                None
            },
    )
}

/// The parameters that the first `n` pieces give, written in order.
pub open spec fn piece_pairs(pieces: Seq<Seq<char>>, n: int) -> Seq<Pair> {
    put_all(piece_writes(pieces), n)
}

/// Whether some piece among the first `n` gives a parameter called `key`.
pub open spec fn gives_key(pieces: Seq<Seq<char>>, n: int, key: Seq<char>) -> bool {
    exists|i: int| 0 <= i < n && is_pair(#[trigger] pieces[i]) && pair_key(pieces[i]) == key
}

/// Whether the piece at place `i` is the last among the first `n` that gives
/// a parameter of its key.
pub open spec fn last_of_key(pieces: Seq<Seq<char>>, n: int, i: int) -> bool {
    0 <= i < n && is_pair(pieces[i]) && forall|j: int|
        i < j < n && is_pair(#[trigger] pieces[j]) ==> pair_key(pieces[j]) != pair_key(pieces[i])
}

/// A piece gives a parameter exactly when it holds one `=`.
pub proof fn lemma_pair_has_one_equal_sign(piece: Seq<char>)
    ensures
        is_pair(piece) <==> count(piece, '=') == 1,
{
    lemma_split_len(piece, '=');
}

/// What the first `n` pieces give: the keys are those of the pieces that
/// hold exactly one `=`, every other piece is left out, no key stands twice,
/// and each key has the value of the last piece that gives it.
pub proof fn lemma_piece_pairs(pieces: Seq<Seq<char>>, n: int)
    requires
        0 <= n <= pieces.len(),
    ensures
        distinct_keys(piece_pairs(pieces, n)),
        forall|key: Seq<char>| #[trigger]
            map_of(piece_pairs(pieces, n)).contains_key(key) <==> gives_key(pieces, n, key),
        forall|i: int| #[trigger]
            last_of_key(pieces, n, i) ==> map_of(piece_pairs(pieces, n))[pair_key(pieces[i])]
                == pair_value(pieces[i]),
{
    let writes = piece_writes(pieces);
    lemma_put_all(writes, n);
    assert forall|key: Seq<char>| writes_key(writes, n, key) <==> gives_key(pieces, n, key) by {
        if writes_key(writes, n, key) {
            let i = choose|i: int|
                0 <= i < n && (#[trigger] writes[i]) is Some && writes[i].unwrap().0 == key;
            assert(is_pair(pieces[i]) && pair_key(pieces[i]) == key);
        }
        if gives_key(pieces, n, key) {
            let i = choose|i: int|
                0 <= i < n && is_pair(#[trigger] pieces[i]) && pair_key(pieces[i]) == key;
            assert(writes[i] is Some && writes[i].unwrap().0 == key);
        }
    }
    assert forall|i: int| #[trigger] last_of_key(pieces, n, i) implies is_last_write(writes, n, i) by {
        assert forall|j: int| i < j < n && (#[trigger] writes[j]) is Some implies writes[j].unwrap().0
            != writes[i].unwrap().0 by {
            assert(is_pair(pieces[j]));
        }
    }
}

/// The parameters of a query or of a form body, in the order in which their
/// keys first occur.
pub open spec fn form_pairs(text: Seq<char>) -> Seq<Pair> {
    piece_pairs(split(text, '&'), split(text, '&').len() as int)
}

/// The path of a target: what stands before its first `?`.
pub open spec fn target_path(target: Seq<char>) -> Seq<char> {
    match find(target, seq!['?']) {
        Some(i) => target.take(i),
        None => target,
    }
}

/// The parameters of a target's query: of what stands after its first `?`.
/// A target without `?` has none.
pub open spec fn target_pairs(target: Seq<char>) -> Seq<Pair> {
    match find(target, seq!['?']) {
        Some(i) => form_pairs(target.skip(i + 1)),
        None => Seq::<Pair>::empty(),
    }
}

/// The head of a request text: what stands before the first blank line.
pub open spec fn head_of(text: Seq<char>) -> Option<Seq<char>> {
    match find(text, boundary()) {
        Some(i) => Some(text.take(i)),
        None => None,
    }
}

/// The body of a request text: all that stands after the first blank line.
pub open spec fn body_of(text: Seq<char>) -> Option<Seq<char>> {
    match find(text, boundary()) {
        Some(i) => Some(text.skip(i + 4)),
        None => None,
    }
}

/// What `text` says as a request, or why it is none.
pub open spec fn parse(text: Seq<char>) -> Result<RequestModel, RequestError> {
    if head_of(text) is None {
        Err(RequestError::MalformedRequest)
    } else if words(head_of(text).unwrap()).len() < 2 {
        Err(RequestError::MissingTarget)
    } else {
        let line = words(head_of(text).unwrap());
        Ok(
            RequestModel {
                method: line[0],
                path: target_path(line[1]),
                query_params: map_of(target_pairs(line[1])),
                body_params: map_of(form_pairs(body_of(text).unwrap())),
            },
        )
    }
}

/// A text without a blank line is always refused as malformed, and no other
/// text is.
pub proof fn lemma_malformed_iff_no_boundary(text: Seq<char>)
    ensures
        parse(text) == Err::<RequestModel, RequestError>(RequestError::MalformedRequest)
            <==> !contains(text, boundary()),
{
    lemma_find(text, boundary());
}

/// Reads a query or a form body; see `form_pairs`.
pub fn parse_form(text: &str) -> (params: StringMap)
    ensures
        params.pairs() == form_pairs(text@),
        params@ == map_of(form_pairs(text@)),
{
    let pieces = split_text(text, '&');
    let n: usize = pieces.len();
    let mut params = StringMap::new();
    let mut i: usize = 0;
    while i < n
        invariant
            n == pieces@.len(),
            texts(pieces@) == split(text@, '&'),
            i <= n,
            params.pairs() == piece_pairs(split(text@, '&'), i as int),
        decreases n - i,
    {
        assert(texts(pieces@)[i as int] == pieces@[i as int]@);
        let fields = split_text(pieces[i].as_str(), '=');
        if fields.len() == 2 {
            assert(texts(fields@)[0] == fields@[0]@);
            assert(texts(fields@)[1] == fields@[1]@);
            params.insert(fields[0].clone(), fields[1].clone());
        }
        i += 1;
    }
    params
}

/// Reads a request from its text; see `parse`.
pub fn parse_request(text: &str) -> (parsed: Result<Request, RequestError>)
    ensures
        match parsed {
            Ok(request) => parse(text@) == Ok::<RequestModel, RequestError>(request@)
                && request.query_params.pairs() == target_pairs(words(head_of(text@).unwrap())[1])
                && request.body_params.pairs() == form_pairs(body_of(text@).unwrap()),
            Err(e) => parse(text@) == Err::<RequestModel, RequestError>(e),
        },
{
    let chars = chars_of(text);
    let blank_line: Vec<char> = vec!['\r', '\n', '\r', '\n'];
    assert(blank_line@ =~= boundary());
    let at: usize = match find_first(&chars, &blank_line) {
        Some(i) => i,
        None => {
            return Err(RequestError::MalformedRequest);
        },
    };
    let total: usize = chars.len();
    proof {
        lemma_find(text@, boundary());
        assert(boundary().len() == 4);
    }
    assert(at + 4 <= total);
    let head: &str = text.substring_char(0, at);
    let body: &str = text.substring_char(at + 4, total);
    assert(head@ =~= head_of(text@).unwrap());
    assert(body@ =~= body_of(text@).unwrap());
    let line = split_words(head);
    if line.len() < 2 {
        return Err(RequestError::MissingTarget);
    }
    assert(texts(line@)[0] == line@[0]@);
    assert(texts(line@)[1] == line@[1]@);
    let method = line[0].clone();
    let target: &str = line[1].as_str();
    let target_chars = chars_of(target);
    let target_len: usize = target_chars.len();
    let mark: Vec<char> = vec!['?'];
    assert(mark@ =~= seq!['?']);
    let (path, query_params) = match find_first(&target_chars, &mark) {
        Some(q) => {
            proof {
                lemma_find(target@, seq!['?']);
                assert(seq!['?'].len() == 1);
            }
            let query: &str = target.substring_char(q + 1, target_len);
            assert(query@ =~= target@.skip(q + 1));
            let before: &str = target.substring_char(0, q);
            assert(before@ =~= target@.take(q as int));
            (before.to_owned(), parse_form(query))
        },
        None => (target.to_owned(), StringMap::new()),
    };
    let body_params = parse_form(body);
    Ok(Request { method, path, query_params, body_params })
}

/// The text that a run of bytes stands for when it is read as UTF-8 and
/// every ill-formed part is replaced by U+FFFD.
pub uninterp spec fn utf8_lossy(bytes: Seq<u8>) -> Seq<char>;

/// Calls `String::from_utf8_lossy` and takes the result as an owned string.
/// The contract gives the result its name, `utf8_lossy`: the same bytes
/// always decode to the same text. Of bytes that are well-formed UTF-8 it
/// says more: they decode to the text that they encode, unchanged.
#[verifier::external_body]
pub(crate) fn decode_lossy(raw: &[u8]) -> (text: String)
    ensures
        text@ == utf8_lossy(raw@),
        valid_utf8(raw@) ==> text@ == decode_utf8(raw@),
{
    String::from_utf8_lossy(raw).into_owned()
}

/// Reads a request from the bytes that came over a connection: decodes them
/// as UTF-8, replacing what is ill-formed, and parses the text. Well-formed
/// bytes are read as the text that they encode.
pub fn parse_request_bytes(raw: &[u8]) -> (parsed: Result<Request, RequestError>)
    ensures
        match parsed {
            Ok(request) => parse(utf8_lossy(raw@)) == Ok::<RequestModel, RequestError>(request@),
            Err(e) => parse(utf8_lossy(raw@)) == Err::<RequestModel, RequestError>(e),
        },
        valid_utf8(raw@) ==> utf8_lossy(raw@) == decode_utf8(raw@),
{
    let text = decode_lossy(raw);
    parse_request(text.as_str())
}

} // verus!
