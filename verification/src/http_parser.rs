//! A very primitive HTTP parser, that is only capable of parsing the headers of an HTTP
//! request into a map of String -> String.
use vstd::prelude::*;
use vstd::slice::{slice_subrange, slice_to_vec};
use vstd::utf8::*;

use crate::utils::{error, other_error, Error};
use crate::text::{
    decimal_digits, lemma_parse_decimal_digits, lemma_valid_utf8_split_ascii, parse_usize,
    spec_parse_usize, spec_trim, str_eq, trim, utf8_to_string,
};
use crate::wire::append_bytes;

verus! {

/// The bytes `\r`, `\n` and `:` of the header syntax.
pub open spec fn cr() -> u8 {
    0x0d
}

pub open spec fn lf() -> u8 {
    0x0a
}

pub open spec fn colon() -> u8 {
    0x3a
}

/// True when `\r\n\r\n`, the end of the headers, starts at `i` in `s`.
pub open spec fn is_header_end_at(s: Seq<u8>, i: int) -> bool {
    &&& 0 <= i
    &&& i + 4 <= s.len()
    &&& s[i] == cr()
    &&& s[i + 1] == lf()
    &&& s[i + 2] == cr()
    &&& s[i + 3] == lf()
}

/// The first position at or after `from` where `\r\n\r\n` starts in `s`.
pub open spec fn find_header_end(s: Seq<u8>, from: int) -> Option<int>
    decreases s.len() - from,
{
    if from < 0 || from + 4 > s.len() {
        None
    } else if is_header_end_at(s, from) {
        Some(from)
    } else {
        find_header_end(s, from + 1)
    }
}

/// True when a line break `\r\n` starts at `i` in `s`.
pub open spec fn is_crlf_at(s: Seq<u8>, i: int) -> bool {
    0 <= i && i + 2 <= s.len() && s[i] == cr() && s[i + 1] == lf()
}

/// The first position at or after `from` where `\r\n` starts in `s`.
pub open spec fn find_crlf(s: Seq<u8>, from: int) -> Option<int>
    decreases s.len() - from,
{
    if from < 0 || from + 2 > s.len() {
        None
    } else if is_crlf_at(s, from) {
        Some(from)
    } else {
        find_crlf(s, from + 1)
    }
}

/// The first position at or after `from` where the byte `b` stands in `s`.
pub open spec fn find_byte(s: Seq<u8>, b: u8, from: int) -> Option<int>
    decreases s.len() - from,
{
    if from < 0 || from >= s.len() {
        None
    } else if s[from] == b {
        Some(from)
    } else {
        find_byte(s, b, from + 1)
    }
}

/// The end of the headers is the first `\r\n\r\n`: `find_header_end` gives a
/// position where one starts, with none before it from `from` on, and gives
/// nothing only when none starts at or after `from`.
pub proof fn lemma_header_end_is_first(s: Seq<u8>, from: int)
    requires
        0 <= from,
    ensures
        match find_header_end(s, from) {
            Some(p) => {
                &&& from <= p
                &&& is_header_end_at(s, p)
                &&& forall|i: int| from <= i < p ==> !is_header_end_at(s, i)
            },
            None => forall|i: int| from <= i ==> !is_header_end_at(s, i),
        },
    decreases s.len() - from,
{
    if from + 4 <= s.len() && !is_header_end_at(s, from) {
        lemma_header_end_is_first(s, from + 1);
    }
}

/// `find_byte` gives the first position at or after `from` that holds `b`,
/// and nothing only when no position at or after `from` holds it.
pub proof fn lemma_find_byte_is_first(s: Seq<u8>, b: u8, from: int)
    requires
        0 <= from,
    ensures
        match find_byte(s, b, from) {
            Some(i) => {
                &&& from <= i < s.len()
                &&& s[i] == b
                &&& forall|j: int| from <= j < i ==> s[j] != b
            },
            None => forall|j: int| from <= j < s.len() ==> s[j] != b,
        },
    decreases s.len() - from,
{
    if from < s.len() && s[from] != b {
        lemma_find_byte_is_first(s, b, from + 1);
    }
}

/// The first position at or after `from` where `b` stands, when `s` holds `b`
/// at `k` and nowhere in between.
proof fn lemma_find_byte_at(s: Seq<u8>, b: u8, from: int, k: int)
    requires
        0 <= from <= k < s.len(),
        s[k] == b,
        forall|j: int| from <= j < k ==> s[j] != b,
    ensures
        find_byte(s, b, from) == Some(k),
{
    lemma_find_byte_is_first(s, b, from);
}

/// How a header line splits: a line `name:value` whose name and value hold no
/// `:` gives exactly that name and value, whatever other bytes they hold; a
/// second `:` ends the value; a line with no `:` is all name and has an empty
/// value.
pub proof fn lemma_header_line_fields(name: Seq<u8>, value: Seq<u8>, rest: Seq<u8>)
    requires
        forall|i: int| 0 <= i < name.len() ==> name[i] != colon(),
        forall|i: int| 0 <= i < value.len() ==> value[i] != colon(),
    ensures
        header_name_bytes(name + seq![colon()] + value) == name,
        header_value_bytes(name + seq![colon()] + value) == value,
        header_name_bytes(name + seq![colon()] + value + seq![colon()] + rest) == name,
        header_value_bytes(name + seq![colon()] + value + seq![colon()] + rest) == value,
        header_name_bytes(name) == name,
        header_value_bytes(name) == Seq::<u8>::empty(),
{
    let n = name.len() as int;
    let one = name + seq![colon()] + value;
    let two = name + seq![colon()] + value + seq![colon()] + rest;
    lemma_find_byte_at(one, colon(), 0, n);
    lemma_find_byte_is_first(one, colon(), n + 1);
    assert forall|j: int| n + 1 <= j < one.len() implies one[j] != colon() by {
        assert(one[j] == value[j - n - 1]);
    }
    assert(one.subrange(0, n) =~= name);
    assert(one.subrange(n + 1, one.len() as int) =~= value);
    lemma_find_byte_at(two, colon(), 0, n);
    assert forall|j: int| n + 1 <= j < n + 1 + value.len() implies two[j] != colon() by {
        assert(two[j] == value[j - n - 1]);
    }
    lemma_find_byte_at(two, colon(), n + 1, n + 1 + value.len());
    assert(two.subrange(0, n) =~= name);
    assert(two.subrange(n + 1, n + 1 + value.len()) =~= value);
    lemma_find_byte_is_first(name, colon(), 0);
}

/// The name of a header line: what stands before its first `:`, or the whole
/// line when it has none.
pub open spec fn header_name_bytes(line: Seq<u8>) -> Seq<u8> {
    match find_byte(line, colon(), 0) {
        Some(i) => line.subrange(0, i),
        None => line,
    }
}

/// The value of a header line: what stands between its first and its second
/// `:` (or the end of the line), or nothing when the line has no `:`.
pub open spec fn header_value_bytes(line: Seq<u8>) -> Seq<u8> {
    match find_byte(line, colon(), 0) {
        None => Seq::empty(),
        Some(i) => match find_byte(line, colon(), i + 1) {
            Some(j) => line.subrange(i + 1, j),
            None => line.subrange(i + 1, line.len() as int),
        },
    }
}

/// `m` with the header of `line` added; a name that is already there gets the
/// new value.
pub open spec fn add_header_line(m: Map<Seq<char>, Seq<char>>, line: Seq<u8>) -> Map<
    Seq<char>,
    Seq<char>,
> {
    m.insert(decode_utf8(header_name_bytes(line)), decode_utf8(header_value_bytes(line)))
}

/// `m` with the headers of the lines of `text` from `start` on added, in
/// order; the lines are separated by `\r\n`.
pub open spec fn add_header_lines(m: Map<Seq<char>, Seq<char>>, text: Seq<u8>, start: int) -> Map<
    Seq<char>,
    Seq<char>,
>
    decreases text.len() - start,
{
    if start < 0 || start > text.len() {
        m
    } else {
        match find_crlf(text, start) {
            // `find_crlf` gives a position in [start, len - 2]: the bounds are always met
            Some(i) => if start <= i && i + 2 <= text.len() {
                add_header_lines(add_header_line(m, text.subrange(start, i)), text, i + 2)
            } else {
                m
            },
            None => add_header_line(m, text.subrange(start, text.len() as int)),
        }
    }
}

/// The headers that the header block `text` (without its final `\r\n\r\n`)
/// gives.
pub open spec fn header_map(text: Seq<u8>) -> Map<Seq<char>, Seq<char>> {
    add_header_lines(Map::empty(), text, 0)
}

/// The length of the body that the headers announce: the value of
/// `Content-Length`, trimmed and read as a number, or 0 when it is missing or
/// not a number.
pub open spec fn spec_content_length(headers: Map<Seq<char>, Seq<char>>) -> usize {
    if headers.contains_key("Content-Length"@) {
        match spec_parse_usize(spec_trim(headers["Content-Length"@])) {
            Some(n) => n,
            None => 0,
        }
    } else {
        0
    }
}

/// The announced length is the number that the trimmed `Content-Length`
/// value writes, when it writes one.
pub proof fn lemma_content_length_announced(headers: Map<Seq<char>, Seq<char>>, k: usize)
    requires
        headers.contains_key("Content-Length"@),
        spec_parse_usize(spec_trim(headers["Content-Length"@])) == Some(k),
    ensures
        spec_content_length(headers) == k,
{
}

/// A `Content-Length` value that is a number written in decimal, with
/// whitespace around it or not, announces that number.
pub proof fn lemma_content_length_decimal(headers: Map<Seq<char>, Seq<char>>, k: usize)
    requires
        headers.contains_key("Content-Length"@),
        spec_trim(headers["Content-Length"@]) == decimal_digits(k as nat),
    ensures
        spec_content_length(headers) == k,
{
    lemma_parse_decimal_digits(k);
}

/// Without a `Content-Length` that writes a number, the announced length is 0.
pub proof fn lemma_content_length_default(headers: Map<Seq<char>, Seq<char>>)
    requires
        !headers.contains_key("Content-Length"@) || spec_parse_usize(
            spec_trim(headers["Content-Length"@]),
        ) is None,
    ensures
        spec_content_length(headers) == 0,
{
}

/// The map of a sequence of (name, value) entries, later entries overriding
/// earlier ones.
pub open spec fn entries_map(entries: Seq<(String, String)>) -> Map<Seq<char>, Seq<char>>
    decreases entries.len(),
{
    if entries.len() == 0 {
        Map::empty()
    } else {
        entries_map(entries.drop_last()).insert(entries.last().0@, entries.last().1@)
    }
}

/// Entries after position `i` that have other names leave the value of `name`
/// as the first `i` entries give it.
proof fn lemma_entries_map_prefix(entries: Seq<(String, String)>, i: int, name: Seq<char>)
    requires
        0 <= i <= entries.len(),
        forall|j: int| i <= j < entries.len() ==> (#[trigger] entries[j]).0@ != name,
    ensures
        entries_map(entries).contains_key(name) == entries_map(
            entries.subrange(0, i),
        ).contains_key(name),
        entries_map(entries).contains_key(name) ==> entries_map(entries)[name] == entries_map(
            entries.subrange(0, i),
        )[name],
    decreases entries.len(),
{
    if i == entries.len() {
        assert(entries.subrange(0, i) =~= entries);
    } else {
        let rest = entries.drop_last();
        assert(rest.subrange(0, i) =~= entries.subrange(0, i));
        assert forall|j: int| i <= j < rest.len() implies (#[trigger] rest[j]).0@ != name by {
            assert(rest[j] == entries[j]);
        }
        lemma_entries_map_prefix(rest, i, name);
    }
}

/// The headers of a request, as a map from names to values.
pub struct Headers {
    entries: Vec<(String, String)>,
}

impl View for Headers {
    type V = Map<Seq<char>, Seq<char>>;

    closed spec fn view(&self) -> Map<Seq<char>, Seq<char>> {
        entries_map(self.entries@)
    }
}

impl Headers {
    /// No headers.
    pub fn new() -> (headers: Headers)
        ensures
            headers@ == Map::<Seq<char>, Seq<char>>::empty(),
    {
        Headers { entries: Vec::new() }
    }

    /// Sets the value of a header.
    pub fn insert(&mut self, name: String, value: String)
        ensures
            final(self)@ == old(self)@.insert(name@, value@),
    {
        self.entries.push((name, value));
        assert(self.entries@.drop_last() =~= old(self).entries@);
    }

    /// The value of a header.
    pub fn get(&self, name: &str) -> (value: Option<&String>)
        ensures
            match value {
                Some(v) => self@.contains_key(name@) && self@[name@] == v@,
                None => !self@.contains_key(name@),
            },
    {
        let mut i = self.entries.len();
        while i > 0
            invariant
                i <= self.entries@.len(),
                forall|j: int|
                    i <= j < self.entries@.len() ==> (#[trigger] self.entries@[j]).0@ != name@,
            decreases i,
        {
            if str_eq(self.entries[i - 1].0.as_str(), name) {
                proof {
                    let s = self.entries@;
                    lemma_entries_map_prefix(s, i as int, name@);
                    assert(s.subrange(0, i as int).drop_last() =~= s.subrange(0, i - 1));
                }
                return Some(&self.entries[i - 1].1);
            }
            i = i - 1;
        }
        proof {
            lemma_entries_map_prefix(self.entries@, 0, name@);
            assert(self.entries@.subrange(0, 0).len() == 0);
        }
        None
    }

    /// The length of the body that the headers announce.
    pub fn content_length(&self) -> (n: usize)
        ensures
            n == spec_content_length(self@),
    {
        match self.get("Content-Length") {
            Some(value) => content_length_from_trimmed(Some(trim(value.as_str()))),
            None => content_length_from_trimmed(None),
        }
    }
}

/// The body length that a trimmed `Content-Length` value announces: the
/// number it writes, or 0 when it is missing or not a number.
pub fn content_length_from_trimmed(value: Option<&str>) -> (n: usize)
    ensures
        n == match value {
            Some(v) => match spec_parse_usize(v@) {
                Some(k) => k,
                None => 0,
            },
            None => 0,
        },
{
    match value {
        Some(v) => match parse_usize(v) {
            Some(k) => k,
            None => 0,
        },
        None => 0,
    }
}

/// The first position at or after `from` where the byte `b` stands in `s`.
fn find_byte_from(s: &[u8], b: u8, from: usize) -> (res: Option<usize>)
    requires
        from <= s@.len(),
    ensures
        match res {
            Some(i) => find_byte(s@, b, from as int) == Some(i as int),
            None => find_byte(s@, b, from as int) is None,
        },
        res matches Some(i) ==> from <= i < s@.len() && s@[i as int] == b,
{
    let mut i = from;
    while i < s.len()
        invariant
            from <= i <= s@.len(),
            find_byte(s@, b, from as int) == find_byte(s@, b, i as int),
        decreases s@.len() - i,
    {
        if s[i] == b {
            return Some(i);
        }
        i = i + 1;
    }
    None
}

/// The first position in `s` where `\r\n\r\n` starts.
fn find_header_end_in(s: &[u8]) -> (res: Option<usize>)
    ensures
        match res {
            Some(i) => find_header_end(s@, 0) == Some(i as int),
            None => find_header_end(s@, 0) is None,
        },
        res matches Some(i) ==> i + 4 <= s@.len(),
{
    let mut i: usize = 0;
    while i < s.len() && s.len() - i >= 4
        invariant
            i <= s@.len(),
            find_header_end(s@, 0) == find_header_end(s@, i as int),
        decreases s@.len() - i,
    {
        if s[i] == 0x0d && s[i + 1] == 0x0a && s[i + 2] == 0x0d && s[i + 3] == 0x0a {
            return Some(i);
        }
        i = i + 1;
    }
    None
}

/// Makes a string of bytes that are valid UTF-8.
fn valid_utf8_to_string(bytes: &[u8]) -> (s: String)
    requires
        valid_utf8(bytes@),
    ensures
        s@ == decode_utf8(bytes@),
{
    match utf8_to_string(slice_to_vec(bytes)) {
        Some(s) => s,
        None => {
            assert(false);
            String::new()
        },
    }
}

/// Adds the header of one line to `headers`.
fn add_line(headers: &mut Headers, line: &[u8])
    requires
        valid_utf8(line@),
    ensures
        final(headers)@ == add_header_line(old(headers)@, line@),
{
    let len = line.len();
    match find_byte_from(line, 0x3a, 0) {
        None => {
            let name = valid_utf8_to_string(line);
            let value = valid_utf8_to_string(slice_subrange(line, 0, 0));
            proof {
                assert(line@.subrange(0, 0) =~= Seq::<u8>::empty());
            }
            headers.insert(name, value);
        },
        Some(i) => {
            proof {
                lemma_valid_utf8_split_ascii(line@, i as int);
            }
            let name = valid_utf8_to_string(slice_subrange(line, 0, i));
            let end = match find_byte_from(line, 0x3a, i + 1) {
                Some(j) => j,
                None => len,
            };
            proof {
                let rest = line@.subrange(i + 1, len as int);
                if end < len {
                    lemma_valid_utf8_split_ascii(rest, end - (i + 1));
                    assert(rest.subrange(0, end - (i + 1)) =~= line@.subrange(i + 1, end as int));
                }
            }
            let value = valid_utf8_to_string(slice_subrange(line, i + 1, end));
            headers.insert(name, value);
        },
    }
}

/// The headers of the header block `text` (without its final `\r\n\r\n`).
fn parse_header_lines(text: &[u8]) -> (headers: Headers)
    requires
        valid_utf8(text@),
    ensures
        headers@ == header_map(text@),
{
    let mut headers = Headers::new();
    let mut start: usize = 0;
    let mut i: usize = 0;
    proof {
        assert(text@.subrange(0, text@.len() as int) =~= text@);
    }
    loop
        invariant
            start <= i <= text@.len(),
            valid_utf8(text@.subrange(start as int, text@.len() as int)),
            find_crlf(text@, start as int) == find_crlf(text@, i as int),
            add_header_lines(headers@, text@, start as int) == header_map(text@),
        decreases text@.len() - i,
    {
        if i >= text.len() || text.len() - i < 2 {
            let line = slice_subrange(text, start, text.len());
            add_line(&mut headers, line);
            return headers;
        }
        if text[i] == 0x0d && text[i + 1] == 0x0a {
            let line = slice_subrange(text, start, i);
            proof {
                let rest = text@.subrange(start as int, text@.len() as int);
                lemma_valid_utf8_split_ascii(rest, i - start);
                assert(rest.subrange(0, i - start) =~= text@.subrange(start as int, i as int));
                let after = rest.subrange(i - start + 1, rest.len() as int);
                assert(after =~= text@.subrange(i + 1, text@.len() as int));
                lemma_valid_utf8_split_ascii(after, 0);
                assert(after.subrange(1, after.len() as int) =~= text@.subrange(
                    i + 2,
                    text@.len() as int,
                ));
            }
            add_line(&mut headers, line);
            start = i + 2;
            i = i + 2;
        } else {
            i = i + 1;
        }
    }
}

/// A request, as far as it has been read: its headers and all its bytes.
pub struct HttpRequest {
    /// The headers of the request
    pub headers: Headers,
    /// The bytes that we have been reading
    pub bytes: Vec<u8>,
}

impl HttpRequest {
    /// A request of which nothing has been read yet.
    pub fn empty() -> (request: HttpRequest)
        ensures
            request.headers@ == Map::<Seq<char>, Seq<char>>::empty(),
            request.bytes@ == Seq::<u8>::empty(),
    {
        HttpRequest { headers: Headers::new(), bytes: Vec::new() }
    }

    /// The value of the `Host` header, which names the proxy that the request
    /// is for.
    pub fn host(&self) -> (host: Option<&String>)
        ensures
            match host {
                Some(h) => self.headers@.contains_key("Host"@) && self.headers@["Host"@] == h@,
                None => !self.headers@.contains_key("Host"@),
            },
    {
        self.headers.get("Host")
    }
}

/// What the reader of a request does next.
#[derive(Debug, Clone, Copy, PartialEq, Eq, Structural)]
pub enum HttpParseStatus {
    /// Read more bytes and feed them.
    ReadMore,
    /// The headers and the body that they announce have been read.
    Complete,
}

/// What to do once the headers, which end after `header_size` bytes, are
/// known, and `len` bytes have been read in all.
pub open spec fn status_after_headers(len: int, header_size: int, content_length: int) -> HttpParseStatus {
    if len - header_size < content_length {
        HttpParseStatus::ReadMore
    } else {
        HttpParseStatus::Complete
    }
}

/// The request is complete exactly when the bytes after the headers are at
/// least as many as announced.
pub proof fn lemma_status_complete_iff(len: int, header_size: int, content_length: int)
    ensures
        (status_after_headers(len, header_size, content_length) == HttpParseStatus::Complete)
            == (len - header_size >= content_length),
{
}

/// Reading more bytes never turns a complete request back into one that
/// waits for more.
pub proof fn lemma_status_monotone(
    len1: int,
    len2: int,
    header_size: int,
    content_length: int,
)
    requires
        len1 <= len2,
        status_after_headers(len1, header_size, content_length) == HttpParseStatus::Complete,
    ensures
        status_after_headers(len2, header_size, content_length) == HttpParseStatus::Complete,
{
}

/// Reads a request chunk by chunk until all headers have been received, and
/// then until the body that `Content-Length` announces has been received.
/// The end of the headers is the first `\r\n\r\n` in all the bytes fed so
/// far, wherever the chunks were split.
pub struct HttpRequestParser {
    request: HttpRequest,
    header_size: Option<usize>,
    content_length: usize,
}

impl HttpRequestParser {
    /// All bytes fed so far.
    pub closed spec fn bytes(&self) -> Seq<u8> {
        self.request.bytes@
    }

    /// The length of the headers with their final `\r\n\r\n`, once found.
    pub closed spec fn header_size(&self) -> Option<usize> {
        self.header_size
    }

    /// The headers read so far.
    pub closed spec fn headers(&self) -> Map<Seq<char>, Seq<char>> {
        self.request.headers@
    }

    /// The body length that the headers announce.
    pub closed spec fn content_length(&self) -> usize {
        self.content_length
    }

    /// The parser's invariant: the headers are those of the header block.
    pub closed spec fn wf(&self) -> bool {
        match self.header_size {
            None => self.request.headers@ == Map::<Seq<char>, Seq<char>>::empty(),
            Some(h) => {
                &&& 4 <= h <= self.request.bytes@.len()
                &&& is_header_end_at(self.request.bytes@, h - 4)
                &&& forall|i: int| 0 <= i < h - 4 ==> !is_header_end_at(self.request.bytes@, i)
                &&& valid_utf8(self.request.bytes@.subrange(0, h - 4))
                &&& self.request.headers@ == header_map(self.request.bytes@.subrange(0, h - 4))
                &&& self.content_length == spec_content_length(self.request.headers@)
            },
        }
    }

    /// A parser that has read nothing yet.
    pub fn new() -> (parser: HttpRequestParser)
        ensures
            parser.wf(),
            parser.bytes() == Seq::<u8>::empty(),
            parser.header_size() is None,
            parser.headers() == Map::<Seq<char>, Seq<char>>::empty(),
    {
        HttpRequestParser { request: HttpRequest::empty(), header_size: None, content_length: 0 }
    }

    /// Takes in the next chunk of bytes read from the connection and says
    /// whether to read on.
    pub fn feed(&mut self, chunk: &[u8]) -> (res: Result<HttpParseStatus, Error>)
        requires
            old(self).wf(),
            old(self).bytes().len() + chunk@.len() <= usize::MAX,
        ensures
            final(self).wf(),
            final(self).bytes() == old(self).bytes() + chunk@,
            final(self).header_size() matches Some(h) ==> {
                &&& is_header_end_at(final(self).bytes(), h - 4)
                &&& forall|i: int| 0 <= i < h - 4 ==> !is_header_end_at(final(self).bytes(), i)
            },
            match old(self).header_size() {
                Some(h) => {
                    &&& final(self).header_size() == Some(h)
                    &&& final(self).headers() == old(self).headers()
                    &&& final(self).content_length() == old(self).content_length()
                    &&& res matches Ok(status) && status == status_after_headers(
                        final(self).bytes().len() as int,
                        h as int,
                        old(self).content_length() as int,
                    )
                },
                None => match find_header_end(final(self).bytes(), 0) {
                    None => {
                        &&& final(self).header_size() is None
                        &&& res matches Ok(status) && status == HttpParseStatus::ReadMore
                    },
                    Some(p) => {
                        let h = p + 4;
                        let text = final(self).bytes().subrange(0, h - 4);
                        if valid_utf8(text) {
                            &&& final(self).header_size() == Some(h as usize)
                            &&& final(self).headers() == header_map(text)
                            &&& final(self).content_length() == spec_content_length(
                                header_map(text),
                            )
                            &&& res matches Ok(status) && status == status_after_headers(
                                final(self).bytes().len() as int,
                                h,
                                spec_content_length(header_map(text)) as int,
                            )
                        } else {
                            &&& final(self).header_size() is None
                            &&& res matches Err(e) && e@ == other_error(
                                "could not parse headers"@,
                            )
                        }
                    },
                },
            },
    {
        match self.header_size {
            Some(h) => {
                append_bytes(&mut self.request.bytes, chunk);
                assert(self.request.bytes@.subrange(0, h - 4) =~= old(self).request.bytes@.subrange(
                    0,
                    h - 4,
                ));
                assert forall|i: int| 0 <= i < h as int implies self.request.bytes@[i]
                    == old(self).request.bytes@[i] by {}
                assert(is_header_end_at(self.request.bytes@, h - 4));
                assert forall|i: int| 0 <= i < h - 4 implies !is_header_end_at(
                    self.request.bytes@,
                    i,
                ) by {
                    assert(!is_header_end_at(old(self).request.bytes@, i));
                }
                if self.request.bytes.len() - h < self.content_length {
                    Ok(HttpParseStatus::ReadMore)
                } else {
                    Ok(HttpParseStatus::Complete)
                }
            },
            None => {
                append_bytes(&mut self.request.bytes, chunk);
                let done = find_header_end_in(self.request.bytes.as_slice());
                proof {
                    lemma_header_end_is_first(self.request.bytes@, 0);
                }
                match done {
                    None => Ok(HttpParseStatus::ReadMore),
                    Some(p) => {
                        let header_size = p + 4;
                        let text = slice_subrange(
                            self.request.bytes.as_slice(),
                            0,
                            header_size - 4,
                        );
                        if utf8_to_string(slice_to_vec(text)).is_none() {
                            return Err(error("could not parse headers"));
                        }
                        let headers = parse_header_lines(text);
                        let content_length = headers.content_length();
                        self.request.headers = headers;
                        self.header_size = Some(header_size);
                        self.content_length = content_length;
                        if self.request.bytes.len() - header_size < content_length {
                            Ok(HttpParseStatus::ReadMore)
                        } else {
                            Ok(HttpParseStatus::Complete)
                        }
                    },
                }
            },
        }
    }

    /// The request read so far.
    pub fn into_request(self) -> (request: HttpRequest)
        ensures
            request.bytes@ == self.bytes(),
            request.headers@ == self.headers(),
    {
        self.request
    }
}

} // verus!
