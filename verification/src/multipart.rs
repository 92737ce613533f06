//! A minimal `multipart/form-data` reader for `POST /inference`: the `file` part and a few text
//! fields.
//!
//! The delimiter is `--<boundary>`; the line break before it belongs to it and not to the part.
//! Each part is cut at its first empty line into headers and data, and the data keeps every byte
//! it holds, line breaks and binary samples included.
use vstd::prelude::*;
use vstd::slice::{slice_subrange, slice_to_vec};
use vstd::utf8::{decode_utf8, encode_utf8, valid_utf8};
use crate::text::{
    ascii_lower_chars, ascii_lowered, chars_of, concat, find, first_from, lemma_first_from,
    lemma_first_from_is,
    occurs_at, pieces, same, slice_texts, split, starts_with, string_of, strip_prefix, trim,
    trimmed,
};

verus! {

/// One part of a form.
pub struct Field {
    pub name: String,
    /// The `filename="..."` of the part's `Content-Disposition`.
    pub filename: Option<String>,
    pub data: Vec<u8>,
}

/// A form: its parts in the order in which they were sent.
pub struct Form {
    pub fields: Vec<Field>,
}

/// What a [`Field`] holds.
#[verifier::ext_equal]
pub struct FieldView {
    pub name: Seq<char>,
    pub filename: Option<Seq<char>>,
    pub data: Seq<u8>,
}

impl View for Field {
    type V = FieldView;

    open spec fn view(&self) -> FieldView {
        FieldView {
            name: self.name@,
            filename: match self.filename {
                Some(f) => Some(f@),
                None => None,
            },
            data: self.data@,
        }
    }
}

impl View for Form {
    type V = Seq<FieldView>;

    open spec fn view(&self) -> Seq<FieldView> {
        self.fields@.map_values(|f: Field| f@)
    }
}

/// What `String::from_utf8_lossy` makes of a byte string that is no UTF-8.
pub uninterp spec fn replaced(bytes: Seq<u8>) -> Seq<char>;

/// The text that the bytes encode, with replacement characters where they are no UTF-8.
pub open spec fn utf8_lossy(bytes: Seq<u8>) -> Seq<char> {
    if valid_utf8(bytes) {
        decode_utf8(bytes)
    } else {
        replaced(bytes)
    }
}

/// `String::from_utf8_lossy`: the text that the bytes encode, with a replacement character for
/// what is no UTF-8, a function of the bytes alone. Which replacements stand for invalid bytes is
/// left unsaid.
#[verifier::external_body]
pub(crate) fn lossy_text(bytes: &[u8]) -> (r: String)
    ensures
        valid_utf8(bytes@) ==> r@ == decode_utf8(bytes@),
        !valid_utf8(bytes@) ==> r@ == replaced(bytes@),
{
    String::from_utf8_lossy(bytes).into_owned()
}

/// `String::from_utf8`: the text that the bytes encode, if they are UTF-8.
#[verifier::external_body]
pub(crate) fn exact_text(bytes: &[u8]) -> (r: Option<String>)
    ensures
        match r {
            Some(t) => valid_utf8(bytes@) && t@ == decode_utf8(bytes@),
            None => !valid_utf8(bytes@),
        },
{
    String::from_utf8(bytes.to_vec()).ok()
}

/// The index of the first field called `name`.
pub open spec fn first_named(fields: Seq<FieldView>, name: Seq<char>) -> Option<int>
    decreases fields.len(),
{
    if fields.len() == 0 {
        None
    } else if fields[0].name == name {
        Some(0)
    } else {
        match first_named(fields.drop_first(), name) {
            Some(i) => Some(i + 1),
            None => None,
        }
    }
}

/// Of fields with the same name the first one counts: [`first_named`] finds a field of that name,
/// no field before it has it, and where it finds none there is none.
pub proof fn law_first_of_a_name_wins(fields: Seq<FieldView>, name: Seq<char>)
    ensures
        first_named(fields, name) matches Some(i) ==> 0 <= i < fields.len() && fields[i].name
            == name && (forall|k: int| 0 <= k < i ==> (#[trigger] fields[k]).name != name),
        first_named(fields, name) is None ==> (forall|k: int|
            0 <= k < fields.len() ==> (#[trigger] fields[k]).name != name),
    decreases fields.len(),
{
    if fields.len() > 0 && fields[0].name != name {
        let rest = fields.drop_first();
        law_first_of_a_name_wins(rest, name);
        assert forall|k: int| 1 <= k < fields.len() implies #[trigger] fields[k] == rest[k - 1] by {
        }
    }
}

impl Form {
    /// The index of the first field called `name`.
    fn position(&self, name: &str) -> (r: Option<usize>)
        ensures
            match r {
                Some(i) => first_named(self@, name@) == Some(i as int) && i < self.fields@.len(),
                None => first_named(self@, name@) is None,
            },
    {
        let mut i: usize = 0;
        assert(self@.skip(0) =~= self@);
        while i < self.fields.len()
            invariant
                i <= self.fields@.len(),
                first_named(self@, name@) == match first_named(self@.skip(i as int), name@) {
                    Some(k) => Some(k + i),
                    None => None::<int>,
                },
            decreases self.fields@.len() - i,
        {
            let ghost here = self@.skip(i as int);
            assert(here[0] == self.fields@[i as int]@);
            assert(here.drop_first() =~= self@.skip(i + 1));
            if same(self.fields[i].name.as_str(), name) {
                return Some(i);
            }
            i = i + 1;
        }
        None
    }

    /// The bytes of the `file` part.
    pub fn file(&self) -> (r: Option<&[u8]>)
        ensures
            match first_named(self@, "file"@) {
                Some(i) => r matches Some(b) && b@ == self@[i].data,
                None => r is None,
            },
    {
        match self.position("file") {
            Some(i) => Some(self.fields[i].data.as_slice()),
            None => None,
        }
    }

    /// The text of the field `name`, without white space around it.
    pub fn text(&self, name: &str) -> (r: Option<String>)
        ensures
            match first_named(self@, name@) {
                Some(i) => r matches Some(t) && t@ == trimmed(utf8_lossy(self@[i].data)),
                None => r is None,
            },
    {
        match self.position(name) {
            Some(i) => {
                let t = lossy_text(self.fields[i].data.as_slice());
                let cs = chars_of(t.as_str());
                Some(string_of(trim(cs.as_slice())))
            },
            None => None,
        }
    }
}

// ---------------------------------------------------------------------------------------------
// The boundary
// ---------------------------------------------------------------------------------------------

/// `s` without the quotation marks at its two ends.
pub open spec fn unquoted(s: Seq<char>) -> Seq<char>
    decreases s.len(),
{
    if s.len() > 0 && s[0] == '"' {
        unquoted(s.drop_first())
    } else if s.len() > 0 && s.last() == '"' {
        unquoted(s.drop_last())
    } else {
        s
    }
}

/// The boundary that a `Content-Type` names: what stands after the first `boundary=` (in any
/// letter case) up to the next `;`, without white space and then quotation marks around it.
pub open spec fn boundary_in(content_type: Seq<char>) -> Option<Seq<char>> {
    match first_from(ascii_lowered(content_type), "boundary="@, 0) {
        Some(p) => {
            let b = unquoted(trimmed(pieces(content_type.skip(p + "boundary="@.len()), ";"@)[0]));
            if b.len() > 0 {
                Some(b)
            } else {
                None
            }
        },
        None => None,
    }
}

/// The text without the quotation marks at its two ends.
fn unquote(s: &[char]) -> (r: &[char])
    ensures
        r@ == unquoted(s@),
{
    let n: usize = s.len();
    let mut a: usize = 0;
    assert(s@.subrange(0, n as int) =~= s@);
    while a < n && s[a] == '"'
        invariant
            a <= n,
            n == s@.len(),
            unquoted(s@.subrange(a as int, n as int)) == unquoted(s@),
        decreases n - a,
    {
        proof {
            assert(s@.subrange(a as int, n as int).drop_first() =~= s@.subrange(a + 1, n as int));
        }
        a = a + 1;
    }
    let mut b: usize = n;
    while b > a && s[b - 1] == '"'
        invariant
            a <= b <= n,
            n == s@.len(),
            a < b ==> s@[a as int] != '"',
            unquoted(s@.subrange(a as int, b as int)) == unquoted(s@),
        decreases b,
    {
        proof {
            assert(s@.subrange(a as int, b as int).drop_last() =~= s@.subrange(a as int, b - 1));
        }
        b = b - 1;
    }
    slice_subrange(s, a, b)
}

/// The boundary named by a `Content-Type` such as `multipart/form-data; boundary=xxx`.
pub fn boundary_of(content_type: &str) -> (r: Option<String>)
    ensures
        match boundary_in(content_type@) {
            Some(b) => r matches Some(s) && s@ == b,
            None => r is None,
        },
{
    let cs = chars_of(content_type);
    let lower = ascii_lower_chars(cs.as_slice());
    let mark = chars_of("boundary=");
    proof {
        reveal_strlit("boundary=");
        reveal_strlit(";");
        lemma_first_from(lower@, mark@, 0);
    }
    match find(lower.as_slice(), mark.as_slice(), 0) {
        Some(p) => {
            let n: usize = cs.len();
            let rest = slice_subrange(cs.as_slice(), p + mark.len(), n);
            assert(rest@ =~= content_type@.skip(p + "boundary="@.len()));
            let parts = split(rest, ";");
            let raw = parts[0];
            assert(raw@ == slice_texts(parts@)[0]);
            let b = unquote(trim(raw));
            if b.len() == 0 {
                None
            } else {
                Some(string_of(b))
            }
        },
        None => None,
    }
}

// ---------------------------------------------------------------------------------------------
// Part headers
// ---------------------------------------------------------------------------------------------

/// The value of the first `key="value"` in `line`.
pub open spec fn param_in(line: Seq<char>, key: Seq<char>) -> Option<Seq<char>> {
    let mark = key + "=\""@;
    match first_from(line, mark, 0) {
        Some(p) => {
            let rest = line.skip(p + mark.len());
            match first_from(rest, "\""@, 0) {
                Some(e) => Some(rest.take(e)),
                None => None,
            }
        },
        None => None,
    }
}

/// Whether `line` is a `Content-Disposition` header.
pub open spec fn is_disposition(line: Seq<char>) -> bool {
    starts_with(ascii_lowered(trimmed(line)), "content-disposition:"@)
}

/// The first `Content-Disposition` among the header lines, without white space around it.
pub open spec fn disposition_line(lines: Seq<Seq<char>>) -> Option<Seq<char>>
    decreases lines.len(),
{
    if lines.len() == 0 {
        None
    } else if is_disposition(lines[0]) {
        Some(trimmed(lines[0]))
    } else {
        disposition_line(lines.drop_first())
    }
}

/// The name and the file name that a part's header block gives it.
pub open spec fn names_in(headers: Seq<u8>) -> (Option<Seq<char>>, Option<Seq<char>>) {
    match disposition_line(pieces(utf8_lossy(headers), "\r\n"@)) {
        Some(line) => (param_in(line, "name"@), param_in(line, "filename"@)),
        None => (None, None),
    }
}

/// The value of the first `key="value"` in `line`.
pub fn extract_param(line: &[char], key: &str) -> (r: Option<String>)
    ensures
        match param_in(line@, key@) {
            Some(v) => r matches Some(s) && s@ == v,
            None => r is None,
        },
{
    let mark = concat(key, "=\"");
    let mark = chars_of(mark.as_str());
    proof {
        reveal_strlit("=\"");
        reveal_strlit("\"");
        lemma_first_from(line@, mark@, 0);
    }
    match find(line, mark.as_slice(), 0) {
        Some(p) => {
            let n: usize = line.len();
            let rest = slice_subrange(line, p + mark.len(), n);
            assert(rest@ =~= line@.skip(p + mark@.len()));
            let quote = chars_of("\"");
            proof {
                lemma_first_from(rest@, quote@, 0);
            }
            match find(rest, quote.as_slice(), 0) {
                Some(e) => {
                    let value = slice_subrange(rest, 0, e);
                    assert(value@ =~= rest@.take(e as int));
                    Some(string_of(value))
                },
                None => None,
            }
        },
        None => None,
    }
}

/// The text of an optional string.
pub open spec fn opt_text(s: Option<String>) -> Option<Seq<char>> {
    match s {
        Some(t) => Some(t@),
        None => None,
    }
}

/// The name and the file name that a part's header block gives it.
pub fn parse_disposition(headers: &[u8]) -> (r: (Option<String>, Option<String>))
    ensures
        (opt_text(r.0), opt_text(r.1)) == names_in(headers@),
{
    let text = lossy_text(headers);
    let cs = chars_of(text.as_str());
    proof {
        reveal_strlit("\r\n");
    }
    let lines = split(cs.as_slice(), "\r\n");
    let ghost all = slice_texts(lines@);
    let mut i: usize = 0;
    assert(all.skip(0) =~= all);
    while i < lines.len()
        invariant
            i <= lines@.len(),
            all == slice_texts(lines@),
            all == pieces(utf8_lossy(headers@), "\r\n"@),
            disposition_line(all.skip(i as int)) == disposition_line(all),
        decreases lines@.len() - i,
    {
        let ghost here = all.skip(i as int);
        assert(here[0] == lines@[i as int]@);
        assert(here.drop_first() =~= all.skip(i + 1));
        let line = trim(lines[i]);
        let lower = ascii_lower_chars(line);
        if strip_prefix(lower.as_slice(), "content-disposition:").is_some() {
            return (extract_param(line, "name"), extract_param(line, "filename"));
        }
        i = i + 1;
    }
    (None, None)
}

// ---------------------------------------------------------------------------------------------
// Parts
// ---------------------------------------------------------------------------------------------

/// A line break.
pub open spec fn crlf() -> Seq<u8> {
    seq![13u8, 10u8]
}

/// An empty line: the end of a part's headers.
pub open spec fn blank_line() -> Seq<u8> {
    seq![13u8, 10u8, 13u8, 10u8]
}

/// The delimiter that a boundary stands for.
pub open spec fn delimiter(boundary: Seq<char>) -> Seq<u8> {
    encode_utf8("--"@ + boundary)
}

/// `seg` without a line break at its start.
pub open spec fn without_leading_break(seg: Seq<u8>) -> Seq<u8> {
    if seg.len() >= 2 && seg.take(2) == crlf() {
        seg.skip(2)
    } else {
        seg
    }
}

/// `seg` without a line break at its end.
pub open spec fn without_trailing_break(seg: Seq<u8>) -> Seq<u8> {
    if seg.len() >= 2 && seg.skip(seg.len() - 2) == crlf() {
        seg.take(seg.len() - 2)
    } else {
        seg
    }
}

/// The part that stands between two delimiters, if `seg` is one: not empty, not the tail of a
/// closing delimiter, with an empty line after the headers, and with a name.
pub open spec fn part_in(seg: Seq<u8>) -> Option<FieldView> {
    if seg.len() == 0 || (seg.len() >= 2 && seg[0] == 45 && seg[1] == 45) {
        None
    } else {
        let inner = without_trailing_break(without_leading_break(seg));
        match first_from(inner, blank_line(), 0) {
            Some(h) => match names_in(inner.take(h)) {
                (Some(name), filename) => Some(
                    FieldView { name, filename, data: inner.skip(h + 4) },
                ),
                (None, _) => None,
            },
            None => None,
        }
    }
}

/// The parts in what follows a delimiter.
pub open spec fn parts_after(rest: Seq<u8>, dash: Seq<u8>) -> Seq<FieldView>
    decreases rest.len(),
{
    match first_from(rest, dash, 0) {
        Some(p) => if 0 <= p && dash.len() > 0 && p + dash.len() <= rest.len() {
            match part_in(rest.take(p)) {
                Some(f) => seq![f] + parts_after(rest.skip(p + dash.len()), dash),
                None => parts_after(rest.skip(p + dash.len()), dash),
            }
        } else {
            seq![]
        },
        None => seq![],
    }
}

/// The parts of a body: whatever stands before the first delimiter and after the last is skipped.
pub open spec fn parts_of(body: Seq<u8>, dash: Seq<u8>) -> Seq<FieldView> {
    match first_from(body, dash, 0) {
        Some(p) => parts_after(body.skip(p + dash.len()), dash),
        None => seq![],
    }
}

/// Searching from `start` is searching in what is left from there on.
pub proof fn lemma_search_shifts<T>(hay: Seq<T>, needle: Seq<T>, cut: int, start: int)
    requires
        0 <= cut <= start <= hay.len(),
    ensures
        first_from(hay, needle, start) == match first_from(hay.skip(cut), needle, start - cut) {
            Some(p) => Some(p + cut),
            None => None::<int>,
        },
    decreases hay.len() - start,
{
    let tail = hay.skip(cut);
    if needle.len() > 0 && start + needle.len() <= hay.len() {
        assert(tail.subrange(start - cut, start - cut + needle.len()) =~= hay.subrange(
            start,
            start + needle.len(),
        ));
        if !occurs_at(hay, needle, start) {
            lemma_search_shifts(hay, needle, cut, start + 1);
        }
    }
}

/// Whether `needle` stands in `hay` at position `i`.
fn bytes_at(hay: &[u8], needle: &[u8], i: usize) -> (r: bool)
    requires
        i + needle@.len() <= hay@.len(),
    ensures
        r == occurs_at(hay@, needle@, i as int),
{
    let n: usize = hay.len();
    let mut k: usize = 0;
    while k < needle.len()
        invariant
            k <= needle@.len(),
            n == hay@.len(),
            i + needle@.len() <= n,
            forall|j: int| 0 <= j < k ==> hay@[i + j] == needle@[j],
        decreases needle@.len() - k,
    {
        if hay[i + k] != needle[k] {
            assert(hay@.subrange(i as int, i + needle@.len())[k as int] != needle@[k as int]);
            return false;
        }
        k = k + 1;
    }
    assert(hay@.subrange(i as int, i + needle@.len()) =~= needle@);
    true
}

/// The first place at or after `start` where the non-empty `needle` stands in `hay`.
pub fn find_from(hay: &[u8], needle: &[u8], start: usize) -> (r: Option<usize>)
    ensures
        match r {
            Some(p) => first_from(hay@, needle@, start as int) == Some(p as int),
            None => first_from(hay@, needle@, start as int) is None,
        },
        r matches Some(p) ==> start <= p && p + needle@.len() <= hay@.len(),
{
    if needle.len() == 0 || start >= hay.len() || needle.len() > hay.len() - start {
        return None;
    }
    let n: usize = hay.len();
    let last: usize = n - needle.len();
    let mut i: usize = start;
    while i <= last
        invariant
            start <= i <= last + 1,
            n == hay@.len(),
            last + needle@.len() == n,
            needle@.len() > 0,
            first_from(hay@, needle@, i as int) == first_from(hay@, needle@, start as int),
        decreases last + 1 - i,
    {
        if bytes_at(hay, needle, i) {
            return Some(i);
        }
        i = i + 1;
    }
    None
}

/// The part that stands between two delimiters, if `seg` is one.
fn parse_part(seg: &[u8]) -> (r: Option<Field>)
    ensures
        match part_in(seg@) {
            Some(f) => r matches Some(x) && x@ == f,
            None => r is None,
        },
{
    if seg.len() == 0 {
        return None;
    }
    if seg.len() >= 2 && seg[0] == 45 && seg[1] == 45 {
        return None;
    }
    let n: usize = seg.len();
    let mut a: usize = 0;
    if n >= 2 && seg[0] == 13 && seg[1] == 10 {
        a = 2;
    }
    proof {
        if n >= 2 {
            assert(seg@.take(2) =~= seq![seg@[0], seg@[1]]);
            if seg@.take(2) == crlf() {
                assert(seg@.take(2)[0] == 13);
                assert(seg@.take(2)[1] == 10);
            }
        }
        assert(without_leading_break(seg@) =~= seg@.skip(a as int));
    }
    let mut b: usize = n;
    if n - a >= 2 && seg[n - 2] == 13 && seg[n - 1] == 10 {
        b = n - 2;
    }
    let inner = slice_subrange(seg, a, b);
    proof {
        let m = seg@.skip(a as int);
        if n - a >= 2 {
            let t = m.skip(m.len() - 2);
            assert(t =~= seq![seg@[n - 2], seg@[n - 1]]);
            if t == crlf() {
                assert(t[0] == 13);
                assert(t[1] == 10);
            }
        }
        assert(inner@ =~= without_trailing_break(m));
    }
    let gap: Vec<u8> = vec![13u8, 10u8, 13u8, 10u8];
    assert(gap@ =~= blank_line());
    match find_from(inner, gap.as_slice(), 0) {
        Some(h) => {
            let headers = slice_subrange(inner, 0, h);
            let m: usize = inner.len();
            let data = slice_subrange(inner, h + 4, m);
            assert(headers@ =~= inner@.take(h as int));
            assert(data@ =~= inner@.skip(h + 4));
            let (name, filename) = parse_disposition(headers);
            match name {
                Some(name) => {
                    let f = Field { name, filename, data: slice_to_vec(data) };
                    Some(f)
                },
                None => None,
            }
        },
        None => None,
    }
}

/// Reads the parts of `body`, which `boundary` separates.
pub fn parse(boundary: &str, body: &[u8]) -> (r: Form)
    ensures
        r@ == parts_of(body@, delimiter(boundary@)),
{
    let dash = concat("--", boundary);
    let dash: &[u8] = dash.as_str().as_bytes();
    let mut fields: Vec<Field> = Vec::new();
    let ghost want = parts_of(body@, dash@);
    let mut at: usize = 0;
    let n: usize = body.len();
    match find_from(body, dash, 0) {
        Some(p) => {
            at = p + dash.len();
        },
        None => {
            let r = Form { fields };
            assert(r@ =~= seq![]);
            return r;
        },
    }
    assert(fields@.map_values(|f: Field| f@) =~= seq![]);
    assert(want =~= fields@.map_values(|f: Field| f@) + parts_after(body@.skip(at as int), dash@));
    loop
        invariant_except_break
            at <= n,
            n == body@.len(),
            dash@.len() > 0,
            want == fields@.map_values(|f: Field| f@) + parts_after(body@.skip(at as int), dash@),
        ensures
            want == fields@.map_values(|f: Field| f@),
        decreases n - at,
    {
        let ghost rest = body@.skip(at as int);
        let ghost before = fields@.map_values(|f: Field| f@);
        proof {
            lemma_search_shifts(body@, dash@, at as int, at as int);
        }
        match find_from(body, dash, at) {
            Some(p) => {
                let seg = slice_subrange(body, at, p);
                proof {
                    assert(seg@ =~= rest.take(p - at));
                    assert(rest.skip(p - at + dash@.len()) =~= body@.skip(p + dash@.len()));
                }
                match parse_part(seg) {
                    Some(f) => {
                        fields.push(f);
                        assert(fields@.map_values(|f: Field| f@) =~= before.push(f@));
                        assert(before + (seq![f@] + parts_after(body@.skip(p + dash@.len()), dash@))
                            =~= before.push(f@) + parts_after(body@.skip(p + dash@.len()), dash@));
                    },
                    None => {},
                }
                at = p + dash.len();
            },
            None => {
                assert(want =~= before);
                break;
            },
        }
    }
    Form { fields }
}

// ---------------------------------------------------------------------------------------------
// Writing and reading back
// ---------------------------------------------------------------------------------------------

/// A part as a client writes it: its header block and its data.
pub struct Part {
    pub headers: Seq<u8>,
    pub data: Seq<u8>,
}

/// What stands between two delimiters for the part `p`.
pub open spec fn written(p: Part) -> Seq<u8> {
    crlf() + p.headers + blank_line() + p.data + crlf()
}

/// A whole body: each part after its delimiter, then the closing delimiter and `epilogue`.
pub open spec fn body_of(parts: Seq<Part>, dash: Seq<u8>, epilogue: Seq<u8>) -> Seq<u8>
    decreases parts.len(),
{
    if parts.len() == 0 {
        dash + seq![45u8, 45u8] + epilogue
    } else {
        dash + (written(parts[0]) + body_of(parts.drop_first(), dash, epilogue))
    }
}

/// Whether `p` can be written under the delimiter `dash`: the delimiter does not begin inside the
/// part, and its headers hold no empty line.
pub open spec fn writable(p: Part, dash: Seq<u8>) -> bool {
    &&& forall|i: int|
        0 <= i < written(p).len() ==> !#[trigger] occurs_at(written(p) + dash, dash, i)
    &&& forall|i: int|
        0 <= i < p.headers.len() ==> !#[trigger] occurs_at(
            p.headers + blank_line() + p.data,
            blank_line(),
            i,
        )
}

/// The fields that the parts stand for: those whose headers name them, with their data.
pub open spec fn fields_for(parts: Seq<Part>) -> Seq<FieldView>
    decreases parts.len(),
{
    if parts.len() == 0 {
        seq![]
    } else {
        let rest = fields_for(parts.drop_first());
        match names_in(parts[0].headers) {
            (Some(name), filename) => seq![FieldView { name, filename, data: parts[0].data }] + rest,
            (None, _) => rest,
        }
    }
}

/// A part that was written between delimiters is read back with its name and with every byte of
/// its data.
pub proof fn law_written_part_is_read_back(p: Part, dash: Seq<u8>)
    requires
        writable(p, dash),
    ensures
        part_in(written(p)) == match names_in(p.headers) {
            (Some(name), filename) => Some(FieldView { name, filename, data: p.data }),
            (None, _) => None::<FieldView>,
        },
{
    let w = written(p);
    let inner = p.headers + blank_line() + p.data;
    assert(w.take(2) =~= crlf());
    assert(w.skip(2) =~= inner + crlf());
    assert(without_leading_break(w) == inner + crlf());
    assert((inner + crlf()).skip(inner.len() as int) =~= crlf());
    assert((inner + crlf()).take(inner.len() as int) =~= inner);
    assert(without_trailing_break(inner + crlf()) == inner);
    let h = p.headers.len() as int;
    assert(inner.subrange(h, h + 4) =~= blank_line());
    lemma_first_from_is(inner, blank_line(), 0, h);
    assert(inner.take(h) =~= p.headers);
    assert(inner.skip(h + 4) =~= p.data);
    assert(w[0] == 13);
}

/// The delimiter after a writable part is the first one that a reader meets.
proof fn lemma_next_delimiter(p: Part, dash: Seq<u8>, rest: Seq<u8>)
    requires
        writable(p, dash),
        dash.len() > 0,
        rest.len() >= dash.len(),
        rest.take(dash.len() as int) == dash,
    ensures
        first_from(written(p) + rest, dash, 0) == Some(written(p).len() as int),
{
    let w = written(p);
    let all = w + rest;
    assert(all.subrange(w.len() as int, w.len() as int + dash.len()) =~= dash);
    assert forall|i: int| 0 <= i < w.len() implies !occurs_at(all, dash, i) by {
        assert(!occurs_at(w + dash, dash, i));
        assert((w + dash).subrange(i, i + dash.len()) =~= all.subrange(i, i + dash.len()));
    }
    lemma_first_from_is(all, dash, 0, w.len() as int);
}

/// What follows the first delimiter of a written body is read back part by part.
proof fn lemma_parts_after_written(parts: Seq<Part>, dash: Seq<u8>, epilogue: Seq<u8>)
    requires
        dash.len() > 0,
        forall|i: int| 0 <= i < parts.len() ==> writable(#[trigger] parts[i], dash),
        first_from(seq![45u8, 45u8] + epilogue, dash, 0) is None,
    ensures
        body_of(parts, dash, epilogue).take(dash.len() as int) == dash,
        parts_after(body_of(parts, dash, epilogue).skip(dash.len() as int), dash) == fields_for(
            parts,
        ),
    decreases parts.len(),
{
    let body = body_of(parts, dash, epilogue);
    assert(body.take(dash.len() as int) =~= dash);
    if parts.len() == 0 {
        assert(body.skip(dash.len() as int) =~= seq![45u8, 45u8] + epilogue);
    } else {
        let tail = parts.drop_first();
        let rest = body_of(tail, dash, epilogue);
        assert forall|i: int| 0 <= i < tail.len() implies writable(#[trigger] tail[i], dash) by {
            assert(tail[i] == parts[i + 1]);
        }
        lemma_parts_after_written(tail, dash, epilogue);
        let w = written(parts[0]);
        assert(body.skip(dash.len() as int) =~= w + rest);
        lemma_next_delimiter(parts[0], dash, rest);
        law_written_part_is_read_back(parts[0], dash);
        assert((w + rest).take(w.len() as int) =~= w);
        assert((w + rest).skip(w.len() as int + dash.len()) =~= rest.skip(dash.len() as int));
    }
}

/// A form that was written is read back whole: the named parts come out in the order in which
/// they were written, each with its name, its file name and every byte of its data.
pub proof fn law_written_form_is_read_back(
    parts: Seq<Part>,
    boundary: Seq<char>,
    epilogue: Seq<u8>,
)
    requires
        forall|i: int|
            0 <= i < parts.len() ==> writable(#[trigger] parts[i], delimiter(boundary)),
        first_from(seq![45u8, 45u8] + epilogue, delimiter(boundary), 0) is None,
    ensures
        parts_of(body_of(parts, delimiter(boundary), epilogue), delimiter(boundary)) == fields_for(
            parts,
        ),
{
    let dash = delimiter(boundary);
    lemma_delimiter_not_empty(boundary);
    lemma_parts_after_written(parts, dash, epilogue);
    let body = body_of(parts, dash, epilogue);
    assert(body.subrange(0, dash.len() as int) =~= dash);
    lemma_first_from_is(body, dash, 0, 0);
}

/// A delimiter has at least the two dashes.
pub proof fn lemma_delimiter_not_empty(boundary: Seq<char>)
    ensures
        delimiter(boundary).len() > 0,
{
    reveal_strlit("--");
    let s = "--"@ + boundary;
    assert(s.len() > 0);
    assert(encode_utf8(s).len() > 0);
}

/// Whether every delimiter in `all` lies from `from` to `to`.
pub open spec fn delimiters_within(all: Seq<u8>, dash: Seq<u8>, from: int, to: int) -> bool {
    forall|i: int| #[trigger] occurs_at(all, dash, i) ==> from <= i && i + dash.len() <= to
}

/// Where all delimiters stand in the beginning `rest`, the first one is found there.
proof fn lemma_first_in_beginning(rest: Seq<u8>, post: Seq<u8>, dash: Seq<u8>)
    requires
        dash.len() > 0,
        delimiters_within(rest + post, dash, 0, rest.len() as int),
    ensures
        first_from(rest + post, dash, 0) == first_from(rest, dash, 0),
        first_from(rest, dash, 0) matches Some(p) ==> 0 <= p && p + dash.len() <= rest.len(),
{
    let all = rest + post;
    lemma_first_from(all, dash, 0);
    lemma_first_from(rest, dash, 0);
    match first_from(rest, dash, 0) {
        Some(p) => {
            assert(all.subrange(p, p + dash.len()) =~= rest.subrange(p, p + dash.len()));
            assert forall|k: int| 0 <= k < p implies !occurs_at(all, dash, k) by {
                if occurs_at(all, dash, k) {
                    assert(all.subrange(k, k + dash.len()) =~= rest.subrange(k, k + dash.len()));
                    assert(occurs_at(rest, dash, k));
                }
            }
            lemma_first_from_is(all, dash, 0, p);
        },
        None => {
            if first_from(all, dash, 0) is Some {
                let p = first_from(all, dash, 0)->0;
                assert(all.subrange(p, p + dash.len()) =~= rest.subrange(p, p + dash.len()));
                assert(occurs_at(rest, dash, p));
            }
        },
    }
}

proof fn lemma_epilogue_after(rest: Seq<u8>, post: Seq<u8>, dash: Seq<u8>)
    requires
        dash.len() > 0,
        delimiters_within(rest + post, dash, 0, rest.len() as int),
    ensures
        parts_after(rest + post, dash) == parts_after(rest, dash),
    decreases rest.len(),
{
    let all = rest + post;
    lemma_first_in_beginning(rest, post, dash);
    if first_from(rest, dash, 0) is Some {
        let p = first_from(rest, dash, 0)->0;
        let cut = p + dash.len();
        let left = rest.skip(cut);
        assert(all.take(p) =~= rest.take(p));
        assert(all.skip(cut) =~= left + post);
        assert forall|i: int| #[trigger] occurs_at(left + post, dash, i) implies 0 <= i && i
            + dash.len() <= left.len() by {
            assert((left + post).subrange(i, i + dash.len()) =~= all.subrange(
                cut + i,
                cut + i + dash.len(),
            ));
            assert(occurs_at(all, dash, cut + i));
        }
        lemma_epilogue_after(left, post, dash);
    }
}

/// What stands before the first delimiter and after the last one does not change what is read:
/// where every delimiter lies in `body`, what comes before and after it is skipped.
pub proof fn law_preamble_and_epilogue_are_skipped(
    pre: Seq<u8>,
    body: Seq<u8>,
    post: Seq<u8>,
    dash: Seq<u8>,
)
    requires
        dash.len() > 0,
        delimiters_within(
            pre + body + post,
            dash,
            pre.len() as int,
            (pre.len() + body.len()) as int,
        ),
    ensures
        parts_of(pre + body + post, dash) == parts_of(body, dash),
{
    let all = pre + body + post;
    let n = pre.len() as int;
    let tail = body + post;
    assert(all.skip(n) =~= tail);
    assert forall|i: int| #[trigger] occurs_at(tail, dash, i) implies 0 <= i && i + dash.len()
        <= body.len() by {
        assert(tail.subrange(i, i + dash.len()) =~= all.subrange(n + i, n + i + dash.len()));
        assert(occurs_at(all, dash, n + i));
    }
    lemma_first_in_beginning(body, post, dash);
    lemma_first_from(all, dash, 0);
    lemma_first_from(body, dash, 0);
    match first_from(body, dash, 0) {
        Some(p) => {
            assert(all.subrange(n + p, n + p + dash.len()) =~= body.subrange(p, p + dash.len()));
            assert forall|k: int| 0 <= k < n + p implies !occurs_at(all, dash, k) by {
                if occurs_at(all, dash, k) {
                    assert(all.subrange(k, k + dash.len()) =~= body.subrange(
                        k - n,
                        k - n + dash.len(),
                    ));
                    assert(occurs_at(body, dash, k - n));
                }
            }
            lemma_first_from_is(all, dash, 0, n + p);
            let rest = body.skip(p + dash.len());
            assert(all.skip(n + p + dash.len()) =~= rest + post);
            assert forall|i: int| #[trigger] occurs_at(rest + post, dash, i) implies 0 <= i && i
                + dash.len() <= rest.len() by {
                let at = n + p + dash.len() + i;
                assert((rest + post).subrange(i, i + dash.len()) =~= all.subrange(
                    at,
                    at + dash.len(),
                ));
                assert(occurs_at(all, dash, at));
            }
            lemma_epilogue_after(rest, post, dash);
        },
        None => {
            if first_from(all, dash, 0) is Some {
                let q = first_from(all, dash, 0)->0;
                assert(all.subrange(q, q + dash.len()) =~= body.subrange(
                    q - n,
                    q - n + dash.len(),
                ));
                assert(occurs_at(body, dash, q - n));
            }
        },
    }
}

// ---------------------------------------------------------------------------------------------
// Names that are written and read
// ---------------------------------------------------------------------------------------------

/// A parameter that is written as `key="value"` is read back, where nothing before it looks like it
/// and the value holds no quotation mark.
pub proof fn law_parameters_are_read_back(
    before: Seq<char>,
    key: Seq<char>,
    value: Seq<char>,
    after: Seq<char>,
    line: &[char],
    name: &str,
    r: Option<String>,
)
    requires
        name@ == key,
        line@ == before + key + "=\""@ + value + "\""@ + after,
        forall|i: int| 0 <= i < before.len() ==> !#[trigger] occurs_at(line@, key + "=\""@, i),
        forall|i: int| 0 <= i < value.len() ==> (#[trigger] value[i]) != '"',
        call_ensures(extract_param, (line, name), r),
    ensures
        r matches Some(v) && v@ == value,
{
    reveal_strlit("=\"");
    reveal_strlit("\"");
    let mark = key + "=\""@;
    let n = before.len() as int;
    assert(line@.subrange(n, n + mark.len()) =~= mark);
    lemma_first_from_is(line@, mark, 0, n);
    let rest = line@.skip(n + mark.len());
    assert(rest =~= value + "\""@ + after);
    let e = value.len() as int;
    assert(rest.subrange(e, e + 1) =~= "\""@);
    assert forall|k: int| 0 <= k < e implies !occurs_at(rest, "\""@, k) by {
        assert(rest.subrange(k, k + 1)[0] == value[k]);
    }
    lemma_first_from_is(rest, "\""@, 0, e);
    assert(rest.take(e) =~= value);
}

/// A boundary that a client names is the one that is read: what follows `boundary=`, in any letter
/// case, up to a semicolon.
pub proof fn law_boundaries_are_read_back(
    before: Seq<char>,
    mark: Seq<char>,
    boundary: Seq<char>,
    after: Seq<char>,
    content_type: &str,
    r: Option<String>,
)
    requires
        ascii_lowered(mark) == "boundary="@,
        content_type@ == before + mark + boundary + after,
        after.len() == 0 || after[0] == ';',
        boundary.len() > 0,
        forall|i: int|
            0 <= i < boundary.len() ==> (#[trigger] boundary[i]) != ';' && boundary[i] != '"'
                && !crate::text::is_space(boundary[i]),
        forall|i: int|
            0 <= i < before.len() ==> !#[trigger] occurs_at(
                ascii_lowered(content_type@),
                "boundary="@,
                i,
            ),
        call_ensures(boundary_of, (content_type,), r),
    ensures
        r matches Some(b) && b@ == boundary,
{
    reveal_strlit("boundary=");
    reveal_strlit(";");
    let all = content_type@;
    let low = ascii_lowered(all);
    let n = before.len() as int;
    let m = "boundary="@;
    assert(mark.len() == m.len());
    assert(low.subrange(n, n + m.len()) =~= m) by {
        assert forall|i: int| 0 <= i < m.len() implies low.subrange(n, n + m.len())[i] == m[i] by {
            assert(low[n + i] == crate::text::ascii_lower(all[n + i]));
            assert(all[n + i] == mark[i]);
            assert(ascii_lowered(mark)[i] == crate::text::ascii_lower(mark[i]));
        }
    }
    lemma_first_from_is(low, m, 0, n);
    let rest = all.skip(n + m.len());
    assert(rest =~= boundary + after);
    let e = boundary.len() as int;
    assert forall|k: int| 0 <= k < e implies !occurs_at(rest, ";"@, k) by {
        assert(rest.subrange(k, k + 1)[0] == boundary[k]);
    }
    if after.len() > 0 {
        assert(rest.subrange(e, e + 1) =~= ";"@);
        lemma_first_from_is(rest, ";"@, 0, e);
        assert(rest.take(e) =~= boundary);
    } else {
        lemma_first_from(rest, ";"@, 0);
        assert(rest =~= boundary);
    }
    assert(pieces(rest, ";"@)[0] == boundary);
    assert(boundary[0] != '"' && boundary.last() != '"');
    assert(!crate::text::is_space(boundary[0]) && !crate::text::is_space(boundary.last()));
    assert(trimmed(boundary) == boundary);
    assert(unquoted(boundary) == boundary);
}

/// The recording of a form is its first field `file`, byte for byte, and the text of a field the
/// first of its name, without white space round it.
pub proof fn law_first_field_is_read(form: &Form, name: &str, i: int, f: Option<&[u8]>, t: Option<String>)
    requires
        call_ensures(Form::file, (form,), f),
        call_ensures(Form::text, (form, name), t),
        0 <= i < form@.len(),
    ensures
        form@[i].name == "file"@ && (forall|k: int|
            0 <= k < i ==> (#[trigger] form@[k]).name != "file"@) ==> (f matches Some(b) && b@
            == form@[i].data),
        form@[i].name == name@ && (forall|k: int|
            0 <= k < i ==> (#[trigger] form@[k]).name != name@) ==> (t matches Some(s) && s@
            == trimmed(utf8_lossy(form@[i].data))),
{
    law_first_of_a_name_wins(form@, "file"@);
    law_first_of_a_name_wins(form@, name@);
}

/// The names of a part are those of its first `Content-Disposition` line, in whatever letter case it
/// is written; a part without one has none.
pub proof fn law_names_are_in_the_disposition(
    headers: &[u8],
    lines: Seq<Seq<char>>,
    i: int,
    r: (Option<String>, Option<String>),
)
    requires
        lines == pieces(utf8_lossy(headers@), "\r\n"@),
        call_ensures(parse_disposition, (headers,), r),
    ensures
        0 <= i < lines.len() && begins_disposition(lines[i]) && (forall|k: int|
            0 <= k < i ==> !begins_disposition(#[trigger] lines[k])) ==> opt_text(r.0) == param_in(
            trimmed(lines[i]),
            "name"@,
        ) && opt_text(r.1) == param_in(trimmed(lines[i]), "filename"@),
        (forall|k: int| 0 <= k < lines.len() ==> !begins_disposition(#[trigger] lines[k])) ==> r.0
            is None && r.1 is None,
{
    lemma_disposition_line(lines, i);
}

/// Whether a line begins with `Content-Disposition:`, in any letter case.
pub open spec fn begins_disposition(line: Seq<char>) -> bool {
    starts_with(ascii_lowered(trimmed(line)), "content-disposition:"@)
}

proof fn lemma_disposition_line(lines: Seq<Seq<char>>, i: int)
    ensures
        0 <= i < lines.len() && begins_disposition(lines[i]) && (forall|k: int|
            0 <= k < i ==> !begins_disposition(#[trigger] lines[k])) ==> disposition_line(lines)
            == Some(trimmed(lines[i])),
        (forall|k: int| 0 <= k < lines.len() ==> !begins_disposition(#[trigger] lines[k]))
            ==> disposition_line(lines) is None,
    decreases lines.len(),
{
    if lines.len() > 0 && !begins_disposition(lines[0]) {
        let rest = lines.drop_first();
        lemma_disposition_line(rest, i - 1);
        if 0 < i < lines.len() {
            assert(rest[i - 1] == lines[i]);
        }
        if forall|k: int| 0 <= k < lines.len() ==> !begins_disposition(#[trigger] lines[k]) {
            assert forall|k: int| 0 <= k < rest.len() implies !begins_disposition(
                #[trigger] rest[k],
            ) by {
                assert(!begins_disposition(lines[k + 1]));
            }
        }
        if 0 <= i < lines.len() && begins_disposition(lines[i]) && (forall|k: int|
            0 <= k < i ==> !begins_disposition(#[trigger] lines[k])) {
            assert forall|k: int| 0 <= k < i - 1 implies !begins_disposition(#[trigger] rest[k]) by {
                assert(!begins_disposition(lines[k + 1]));
            }
        }
    }
}

} // verus!
