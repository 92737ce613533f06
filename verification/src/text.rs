//! Text as sequences of characters: the vocabulary that every contract of this crate uses for
//! strings, and the operations on `&[char]` that compute it.
use vstd::prelude::*;
use vstd::slice::slice_subrange;

verus! {

// ---------------------------------------------------------------------------------------------
// White space and trimming
// ---------------------------------------------------------------------------------------------

/// Whether `c` has the Unicode property `White_Space`.
pub open spec fn is_space(c: char) -> bool {
    ||| '\u{9}' <= c <= '\u{d}'
    ||| c == ' '
    ||| c == '\u{85}'
    ||| c == '\u{a0}'
    ||| c == '\u{1680}'
    ||| '\u{2000}' <= c <= '\u{200a}'
    ||| c == '\u{2028}'
    ||| c == '\u{2029}'
    ||| c == '\u{202f}'
    ||| c == '\u{205f}'
    ||| c == '\u{3000}'
}

/// `s` without its leading white space.
pub open spec fn trimmed_start(s: Seq<char>) -> Seq<char>
    decreases s.len(),
{
    if s.len() > 0 && is_space(s[0]) {
        trimmed_start(s.drop_first())
    } else {
        s
    }
}

/// `s` without its trailing white space.
pub open spec fn trimmed_end(s: Seq<char>) -> Seq<char>
    decreases s.len(),
{
    if s.len() > 0 && is_space(s.last()) {
        trimmed_end(s.drop_last())
    } else {
        s
    }
}

/// `s` without leading and trailing white space.
pub open spec fn trimmed(s: Seq<char>) -> Seq<char> {
    trimmed_end(trimmed_start(s))
}

/// Whether `s` holds nothing but white space.
pub open spec fn is_blank(s: Seq<char>) -> bool {
    forall|i: int| 0 <= i < s.len() ==> is_space(#[trigger] s[i])
}

/// Trimming leaves nothing exactly of a blank text.
pub proof fn lemma_blank_iff_trimmed_empty(s: Seq<char>)
    ensures
        is_blank(s) <==> trimmed(s).len() == 0,
{
    lemma_trimmed_start_shape(s);
    lemma_trimmed_end_shape(trimmed_start(s));
    let t = trimmed_start(s);
    if trimmed(s).len() == 0 {
        if t.len() > 0 {
            assert(!is_space(t[0]));
            assert(t[0] == t.skip(0)[0]);
        }
        assert forall|i: int| 0 <= i < s.len() implies is_space(#[trigger] s[i]) by {
            assert(s.take(s.len() - t.len())[i] == s[i]);
        }
    }
    if is_blank(s) && t.len() > 0 {
        assert(s[s.len() - t.len()] == t[0]);
    }
}

/// What `trimmed_start` drops is white space, and what is left does not begin with any.
pub proof fn lemma_trimmed_start_shape(s: Seq<char>)
    ensures
        trimmed_start(s).len() <= s.len(),
        trimmed_start(s) == s.skip(s.len() - trimmed_start(s).len()),
        is_blank(s.take(s.len() - trimmed_start(s).len())),
        trimmed_start(s).len() > 0 ==> !is_space(trimmed_start(s)[0]),
    decreases s.len(),
{
    if s.len() > 0 && is_space(s[0]) {
        let t = s.drop_first();
        lemma_trimmed_start_shape(t);
        let n = t.len() - trimmed_start(t).len();
        assert(s.skip(n + 1) =~= t.skip(n));
        assert forall|i: int| 0 <= i < n + 1 implies is_space(#[trigger] s.take(n + 1)[i]) by {
            if i > 0 {
                assert(t.take(n)[i - 1] == s[i]);
            }
        }
    } else {
        assert(s.skip(0) =~= s);
    }
}

/// What `trimmed_end` drops is white space, and what is left does not end with any.
pub proof fn lemma_trimmed_end_shape(s: Seq<char>)
    ensures
        trimmed_end(s).len() <= s.len(),
        trimmed_end(s) == s.take(trimmed_end(s).len() as int),
        is_blank(s.skip(trimmed_end(s).len() as int)),
        trimmed_end(s).len() > 0 ==> !is_space(trimmed_end(s).last()),
    decreases s.len(),
{
    if s.len() > 0 && is_space(s.last()) {
        let t = s.drop_last();
        lemma_trimmed_end_shape(t);
        let n = trimmed_end(t).len() as int;
        assert(s.take(n) =~= t.take(n));
        assert forall|i: int| 0 <= i < s.len() - n implies is_space(#[trigger] s.skip(n)[i]) by {
            if i + n < t.len() {
                assert(t.skip(n)[i] == s[i + n]);
            }
        }
    } else {
        assert(s.take(s.len() as int) =~= s);
    }
}

/// Decides [`is_space`].
pub fn space(c: char) -> (r: bool)
    ensures
        r == is_space(c),
{
    ('\u{9}' <= c && c <= '\u{d}') || c == ' ' || c == '\u{85}' || c == '\u{a0}' || c == '\u{1680}'
        || ('\u{2000}' <= c && c <= '\u{200a}') || c == '\u{2028}' || c == '\u{2029}'
        || c == '\u{202f}' || c == '\u{205f}' || c == '\u{3000}'
}

/// The text without leading and trailing white space.
pub fn trim(s: &[char]) -> (r: &[char])
    ensures
        r@ == trimmed(s@),
{
    let n: usize = s.len();
    let mut a: usize = 0;
    assert(s@.skip(0) =~= s@);
    while a < n && space(s[a])
        invariant
            a <= n,
            n == s@.len(),
            trimmed_start(s@.skip(a as int)) == trimmed_start(s@),
        decreases n - a,
    {
        proof {
            assert(s@.skip(a as int).drop_first() =~= s@.skip(a + 1));
        }
        a = a + 1;
    }
    let ghost head = trimmed_start(s@);
    assert(head == s@.skip(a as int));
    let mut b: usize = n;
    proof {
        assert(s@.subrange(a as int, b as int) =~= head);
    }
    while b > a && space(s[b - 1])
        invariant
            a <= b <= n,
            n == s@.len(),
            trimmed_end(s@.subrange(a as int, b as int)) == trimmed_end(head),
        decreases b,
    {
        proof {
            assert(s@.subrange(a as int, b as int).drop_last() =~= s@.subrange(a as int, b - 1));
        }
        b = b - 1;
    }
    slice_subrange(s, a, b)
}

// ---------------------------------------------------------------------------------------------
// Conversions
// ---------------------------------------------------------------------------------------------

/// `String::push` appends one character at the end.
pub assume_specification[ String::push ](s: &mut String, c: char)
    ensures
        final(s)@ == old(s)@.push(c),
;

/// The characters of `s`, in order.
pub fn chars_of(s: &str) -> (r: Vec<char>)
    ensures
        r@ == s@,
{
    let mut out: Vec<char> = Vec::new();
    for c in it: s.chars()
        invariant
            out@ == s@.take(it.index() as int),
            it.seq() == s@,
    {
        out.push(c);
    }
    out
}

/// The string made of the characters `s`.
pub fn string_of(s: &[char]) -> (r: String)
    ensures
        r@ == s@,
{
    let mut out = String::new();
    push_chars(&mut out, s);
    out
}

/// The text without leading and trailing white space.
pub fn trim_text(s: &str) -> (r: String)
    ensures
        r@ == trimmed(s@),
{
    let chars = chars_of(s);
    string_of(trim(chars.as_slice()))
}

/// Decides [`is_blank`].
pub fn blank(s: &str) -> (r: bool)
    ensures
        r == is_blank(s@),
{
    let chars = chars_of(s);
    proof {
        lemma_blank_iff_trimmed_empty(s@);
    }
    trim(chars.as_slice()).len() == 0
}

/// Appends the characters `s` to `out`.
pub fn push_chars(out: &mut String, s: &[char])
    ensures
        final(out)@ == old(out)@ + s@,
{
    let ghost before = out@;
    let mut i: usize = 0;
    while i < s.len()
        invariant
            i <= s@.len(),
            out@ == before + s@.take(i as int),
        decreases s@.len() - i,
    {
        proof {
            assert(s@.take(i + 1) =~= s@.take(i as int).push(s@[i as int]));
        }
        out.push(s[i]);
        i = i + 1;
    }
    assert(s@.take(i as int) =~= s@);
}

/// Appends `s` to `out`.
pub fn push_str(out: &mut String, s: &str)
    ensures
        final(out)@ == old(out)@ + s@,
{
    let ghost before = out@;
    for c in it: s.chars()
        invariant
            out@ == before + s@.take(it.index() as int),
            it.seq() == s@,
    {
        out.push(c);
    }
}

/// `a` followed by `b`.
pub fn concat(a: &str, b: &str) -> (r: String)
    ensures
        r@ == a@ + b@,
{
    let mut out = String::new();
    push_str(&mut out, a);
    push_str(&mut out, b);
    out
}

/// `a`, `b` and `c`, one after the other.
pub fn concat3(a: &str, b: &str, c: &str) -> (r: String)
    ensures
        r@ == a@ + b@ + c@,
{
    let mut out = concat(a, b);
    push_str(&mut out, c);
    out
}

/// A string with the characters of `s`.
pub fn owned(s: &str) -> (r: String)
    ensures
        r@ == s@,
{
    let mut out = String::new();
    push_str(&mut out, s);
    out
}

/// The number of characters of `s`.
pub fn char_count(s: &str) -> (r: usize)
    ensures
        r == s@.len(),
{
    chars_of(s).len()
}

// ---------------------------------------------------------------------------------------------
// Comparing, prefixes and suffixes
// ---------------------------------------------------------------------------------------------

/// Whether `s` begins with `p`.
pub open spec fn starts_with(s: Seq<char>, p: Seq<char>) -> bool {
    p.len() <= s.len() && s.take(p.len() as int) == p
}

/// Whether `s` ends with `p`.
pub open spec fn ends_with(s: Seq<char>, p: Seq<char>) -> bool {
    p.len() <= s.len() && s.skip(s.len() - p.len()) == p
}

/// Whether the two texts are the same, character by character.
pub fn same_chars(a: &[char], b: &[char]) -> (r: bool)
    ensures
        r == (a@ == b@),
{
    if a.len() != b.len() {
        return false;
    }
    let mut i: usize = 0;
    while i < a.len()
        invariant
            i <= a@.len(),
            a@.len() == b@.len(),
            forall|k: int| 0 <= k < i ==> a@[k] == b@[k],
        decreases a@.len() - i,
    {
        if a[i] != b[i] {
            return false;
        }
        i = i + 1;
    }
    assert(a@ =~= b@);
    true
}

/// Whether `a` is the text `b`.
pub fn is_text(a: &[char], b: &str) -> (r: bool)
    ensures
        r == (a@ == b@),
{
    let bv = chars_of(b);
    same_chars(a, bv.as_slice())
}

/// Whether the two strings hold the same text.
pub fn same(a: &str, b: &str) -> (r: bool)
    ensures
        r == (a@ == b@),
{
    let av = chars_of(a);
    is_text(av.as_slice(), b)
}

/// What is left of `s` after the prefix `p`, if `s` begins with it.
pub fn strip_prefix<'a>(s: &'a [char], p: &str) -> (r: Option<&'a [char]>)
    ensures
        r is Some <==> starts_with(s@, p@),
        r matches Some(t) ==> t@ == s@.skip(p@.len() as int),
{
    let pv = chars_of(p);
    if pv.len() <= s.len() && same_chars(slice_subrange(s, 0, pv.len()), pv.as_slice()) {
        Some(slice_subrange(s, pv.len(), s.len()))
    } else {
        None
    }
}

/// What is left of `s` before the suffix `p`, if `s` ends with it.
pub fn strip_suffix<'a>(s: &'a [char], p: &str) -> (r: Option<&'a [char]>)
    ensures
        r is Some <==> ends_with(s@, p@),
        r matches Some(t) ==> t@ == s@.take(s@.len() - p@.len()),
{
    let pv = chars_of(p);
    if pv.len() <= s.len() {
        let cut: usize = s.len() - pv.len();
        if same_chars(slice_subrange(s, cut, s.len()), pv.as_slice()) {
            return Some(slice_subrange(s, 0, cut));
        }
    }
    None
}

/// The texts of a list of string slices.
pub open spec fn texts(list: Seq<&'static str>) -> Seq<Seq<char>> {
    list.map_values(|t: &'static str| t@)
}

/// The texts of a list of strings.
pub open spec fn string_texts(list: Seq<String>) -> Seq<Seq<char>> {
    list.map_values(|t: String| t@)
}

/// Whether `s` is one of the texts in `list`.
pub fn is_one_of(s: &[char], list: &[&'static str]) -> (r: bool)
    ensures
        r == texts(list@).contains(s@),
{
    let mut i: usize = 0;
    while i < list.len()
        invariant
            i <= list@.len(),
            forall|k: int| 0 <= k < i ==> texts(list@)[k] != s@,
        decreases list@.len() - i,
    {
        if is_text(s, list[i]) {
            assert(texts(list@)[i as int] == s@);
            return true;
        }
        i = i + 1;
    }
    false
}

// ---------------------------------------------------------------------------------------------
// Searching and splitting
// ---------------------------------------------------------------------------------------------

/// Whether `needle` stands in `hay` at position `i`.
pub open spec fn occurs_at<T>(hay: Seq<T>, needle: Seq<T>, i: int) -> bool {
    0 <= i && i + needle.len() <= hay.len() && hay.subrange(i, i + needle.len()) == needle
}

/// The least position at or after `start` where the non-empty `needle` stands in `hay`.
pub open spec fn first_from<T>(hay: Seq<T>, needle: Seq<T>, start: int) -> Option<int>
    decreases hay.len() - start,
{
    if needle.len() == 0 || start < 0 || start + needle.len() > hay.len() {
        None
    } else if occurs_at(hay, needle, start) {
        Some(start)
    } else {
        first_from(hay, needle, start + 1)
    }
}

/// Whether `needle` stands anywhere in `hay`.
pub open spec fn contains<T>(hay: Seq<T>, needle: Seq<T>) -> bool {
    exists|i: int| occurs_at(hay, needle, i)
}

/// [`first_from`] is the first place where the needle stands, and there is none before it.
pub proof fn lemma_first_from<T>(hay: Seq<T>, needle: Seq<T>, start: int)
    requires
        needle.len() > 0,
        start >= 0,
    ensures
        first_from(hay, needle, start) matches Some(p) ==> start <= p && occurs_at(hay, needle, p)
            && (forall|k: int| start <= k < p ==> !occurs_at(hay, needle, k)),
        first_from(hay, needle, start) is None ==> (forall|k: int|
            start <= k ==> !occurs_at(hay, needle, k)),
    decreases hay.len() - start,
{
    if start + needle.len() <= hay.len() && !occurs_at(hay, needle, start) {
        lemma_first_from(hay, needle, start + 1);
    }
}

/// The first place where the needle stands is the only answer of [`first_from`].
pub proof fn lemma_first_from_is<T>(hay: Seq<T>, needle: Seq<T>, start: int, p: int)
    requires
        needle.len() > 0,
        0 <= start <= p,
        occurs_at(hay, needle, p),
        forall|k: int| start <= k < p ==> !occurs_at(hay, needle, k),
    ensures
        first_from(hay, needle, start) == Some(p),
    decreases p - start,
{
    if start < p {
        lemma_first_from_is(hay, needle, start + 1, p);
    }
}

/// Whether `needle` stands in `hay` at position `i`, for texts.
fn matches_at(hay: &[char], needle: &[char], i: usize) -> (r: bool)
    requires
        i + needle@.len() <= hay@.len(),
    ensures
        r == occurs_at(hay@, needle@, i as int),
{
    let rest = slice_subrange(hay, i, hay.len());
    let here = slice_subrange(rest, 0, needle.len());
    assert(here@ =~= hay@.subrange(i as int, i + needle@.len()));
    same_chars(here, needle)
}

/// The least position at or after `start` where the text `needle` stands in `hay`.
pub fn find(hay: &[char], needle: &[char], start: usize) -> (r: Option<usize>)
    ensures
        match r {
            Some(p) => first_from(hay@, needle@, start as int) == Some(p as int),
            None => first_from(hay@, needle@, start as int) is None,
        },
{
    if needle.len() == 0 || start >= hay.len() || needle.len() > hay.len() - start {
        return None;
    }
    let n: usize = hay.len();
    let last: usize = n - needle.len();
    let mut i: usize = start;
    while i <= last
        invariant
            start <= i <= last + 1,
            n == hay@.len(),
            last + needle@.len() == n,
            needle@.len() > 0,
            first_from(hay@, needle@, i as int) == first_from(hay@, needle@, start as int),
        decreases last + 1 - i,
    {
        if matches_at(hay, needle, i) {
            return Some(i);
        }
        i = i + 1;
    }
    None
}

/// Whether the non-empty text `needle` stands anywhere in `hay`.
pub fn has_text(hay: &[char], needle: &str) -> (r: bool)
    requires
        needle@.len() > 0,
    ensures
        r == contains(hay@, needle@),
{
    let nv = chars_of(needle);
    proof {
        lemma_first_from(hay@, nv@, 0);
    }
    match find(hay, nv.as_slice(), 0) {
        Some(p) => {
            assert(occurs_at(hay@, needle@, p as int));
            true
        },
        None => {
            assert forall|k: int| !occurs_at(hay@, needle@, k) by {
                if k >= 0 {
                    assert(!occurs_at(hay@, nv@, k));
                }
            }
            false
        },
    }
}

/// The pieces of `s` between the non-overlapping occurrences of `sep`, from the left.
pub open spec fn pieces(s: Seq<char>, sep: Seq<char>) -> Seq<Seq<char>>
    decreases s.len(),
{
    match first_from(s, sep, 0) {
        Some(p) => if 0 <= p && sep.len() > 0 && p + sep.len() <= s.len() {
            seq![s.take(p)] + pieces(s.skip(p + sep.len()), sep)
        } else {
            seq![s]
        },
        None => seq![s],
    }
}

/// A view of a list of text slices.
pub open spec fn slice_texts(list: Seq<&[char]>) -> Seq<Seq<char>> {
    list.map_values(|t: &[char]| t@)
}

/// Splits `s` at every occurrence of the non-empty `sep`.
pub fn split<'a>(s: &'a [char], sep: &str) -> (r: Vec<&'a [char]>)
    requires
        sep@.len() > 0,
    ensures
        slice_texts(r@) == pieces(s@, sep@),
        r@.len() > 0,
{
    let sv = chars_of(sep);
    let mut out: Vec<&'a [char]> = Vec::new();
    let mut rest: &'a [char] = s;
    loop
        invariant_except_break
            sv@ == sep@,
            sep@.len() > 0,
            slice_texts(out@) + pieces(rest@, sep@) == pieces(s@, sep@),
        ensures
            slice_texts(out@) == pieces(s@, sep@),
            out@.len() > 0,
        decreases rest@.len(),
    {
        proof {
            lemma_first_from(rest@, sep@, 0);
        }
        match find(rest, sv.as_slice(), 0) {
            Some(p) => {
                let ghost before = slice_texts(out@);
                let ghost old_rest = rest@;
                let n: usize = rest.len();
                let head = slice_subrange(rest, 0, p);
                out.push(head);
                rest = slice_subrange(rest, p + sv.len(), n);
                proof {
                    assert(head@ =~= old_rest.take(p as int));
                    assert(rest@ =~= old_rest.skip(p + sep@.len()));
                    assert(slice_texts(out@) =~= before.push(head@));
                    assert(before + (seq![head@] + pieces(rest@, sep@)) =~= before.push(head@)
                        + pieces(rest@, sep@));
                }
            },
            None => {
                let ghost before = slice_texts(out@);
                out.push(rest);
                proof {
                    assert(slice_texts(out@) =~= before.push(rest@));
                    assert(before + seq![rest@] =~= before.push(rest@));
                }
                break;
            },
        }
    }
    out
}

/// The texts of `parts`, one after the other, with `sep` between them.
pub open spec fn joined(parts: Seq<Seq<char>>, sep: Seq<char>) -> Seq<char>
    decreases parts.len(),
{
    if parts.len() == 0 {
        seq![]
    } else if parts.len() == 1 {
        parts[0]
    } else {
        joined(parts.drop_last(), sep) + sep + parts.last()
    }
}

/// Joins `parts` with `sep` between them.
pub fn join(parts: &Vec<String>, sep: &str) -> (r: String)
    ensures
        r@ == joined(string_texts(parts@), sep@),
{
    let mut out = String::new();
    let mut i: usize = 0;
    let ghost all = string_texts(parts@);
    while i < parts.len()
        invariant
            i <= parts@.len(),
            all == string_texts(parts@),
            out@ == joined(all.take(i as int), sep@),
        decreases parts@.len() - i,
    {
        if i > 0 {
            push_str(&mut out, sep);
        }
        push_str(&mut out, parts[i].as_str());
        proof {
            let now = all.take(i + 1);
            assert(now.drop_last() =~= all.take(i as int));
            assert(now.last() == parts@[i as int]@);
            if i == 0 {
                assert(out@ =~= now[0]);
            }
        }
        i = i + 1;
    }
    assert(all.take(i as int) =~= all);
    out
}

// ---------------------------------------------------------------------------------------------
// Letter case
// ---------------------------------------------------------------------------------------------

/// `c` in lower case if it is one of `A` to `Z`, else `c`.
pub open spec fn ascii_lower(c: char) -> char {
    if 'A' <= c <= 'Z' {
        ((c as u32) + 32) as char
    } else {
        c
    }
}

/// `s` with `A` to `Z` put in lower case.
pub open spec fn ascii_lowered(s: Seq<char>) -> Seq<char> {
    s.map_values(|c: char| ascii_lower(c))
}

/// Computes [`ascii_lower`].
pub fn to_ascii_lower(c: char) -> (r: char)
    ensures
        r == ascii_lower(c),
{
    if 'A' <= c && c <= 'Z' {
        let b: u8 = c as u8;
        (b + 32) as char
    } else {
        c
    }
}

/// `s` with `A` to `Z` put in lower case.
pub fn ascii_lower_chars(s: &[char]) -> (r: Vec<char>)
    ensures
        r@ == ascii_lowered(s@),
{
    let mut out: Vec<char> = Vec::new();
    let mut i: usize = 0;
    while i < s.len()
        invariant
            i <= s@.len(),
            out@ == ascii_lowered(s@).take(i as int),
        decreases s@.len() - i,
    {
        out.push(to_ascii_lower(s[i]));
        i = i + 1;
    }
    out
}

/// What `str::to_lowercase` makes of a text with other characters than [`is_plain`] ones.
pub uninterp spec fn unicode_lowercase(s: Seq<char>) -> Seq<char>;

/// What `char::to_lowercase` makes of another character than an [`is_plain`] one.
pub uninterp spec fn unicode_lower(c: char) -> Seq<char>;

/// Whether `c` is an ASCII character, or one of these that have no letter case: white space, CJK
/// punctuation, a CJK unified ideograph of the basic block, or a comma, colon, exclamation or
/// question mark of full width.
pub open spec fn is_plain(c: char) -> bool {
    ||| c <= '\u{7f}'
    ||| is_space(c)
    ||| '\u{3000}' <= c <= '\u{303f}'
    ||| '\u{4e00}' <= c <= '\u{9fff}'
    ||| c == '，'
    ||| c == '：'
    ||| c == '！'
    ||| c == '？'
}

/// Whether the text is made of such characters alone.
pub open spec fn is_plain_text(s: Seq<char>) -> bool {
    forall|i: int| 0 <= i < s.len() ==> is_plain(#[trigger] s[i])
}

/// The text in lower case.
pub open spec fn lowercase(s: Seq<char>) -> Seq<char> {
    if is_plain_text(s) {
        ascii_lowered(s)
    } else {
        unicode_lowercase(s)
    }
}

/// The character in lower case, which may be more than one character.
pub open spec fn lower_of(c: char) -> Seq<char> {
    if is_plain(c) {
        seq![ascii_lower(c)]
    } else {
        unicode_lower(c)
    }
}

/// The text in lower case, each of its characters on its own.
pub open spec fn lowered(s: Seq<char>) -> Seq<char>
    decreases s.len(),
{
    if s.len() == 0 {
        seq![]
    } else {
        lowered(s.drop_last()) + lower_of(s.last())
    }
}

/// `str::to_lowercase`: the text in lower case as Unicode defines it, which is a function of the
/// text alone. ASCII letters become their lower-case forms, and characters without letter case
/// stay as they are; nothing is stated of a text with other characters.
#[verifier::external_body]
pub(crate) fn to_lowercase(s: &str) -> (r: String)
    ensures
        is_plain_text(s@) ==> r@ == ascii_lowered(s@),
        !is_plain_text(s@) ==> r@ == unicode_lowercase(s@),
{
    s.to_lowercase()
}

/// `char::to_lowercase`: the lower case of one character, which is a function of the character
/// alone. An ASCII letter becomes its lower-case form, and a character without letter case stays as
/// it is; nothing is stated of others.
#[verifier::external_body]
fn char_to_lowercase(c: char) -> (r: Vec<char>)
    ensures
        is_plain(c) ==> r@ == seq![ascii_lower(c)],
        !is_plain(c) ==> r@ == unicode_lower(c),
{
    c.to_lowercase().collect()
}

/// Computes [`lowered`].
pub(crate) fn lower_chars(s: &[char]) -> (r: Vec<char>)
    ensures
        r@ == lowered(s@),
{
    let mut out: Vec<char> = Vec::new();
    let mut i: usize = 0;
    assert(s@.take(0) =~= seq![]);
    while i < s.len()
        invariant
            i <= s@.len(),
            out@ == lowered(s@.take(i as int)),
        decreases s@.len() - i,
    {
        let low = char_to_lowercase(s[i]);
        let ghost before = out@;
        let mut k: usize = 0;
        assert(before + low@.take(0) =~= before);
        while k < low.len()
            invariant
                k <= low@.len(),
                out@ == before + low@.take(k as int),
            decreases low@.len() - k,
        {
            out.push(low[k]);
            k = k + 1;
            assert(out@ =~= before + low@.take(k as int));
        }
        proof {
            assert(low@.take(k as int) =~= low@);
            assert(s@.take(i + 1).drop_last() =~= s@.take(i as int));
            assert(s@.take(i + 1).last() == s@[i as int]);
        }
        i = i + 1;
    }
    assert(s@.take(i as int) =~= s@);
    out
}

/// A text in two pieces is in lower case what the pieces are, one after the other.
pub proof fn lemma_lowered_add(a: Seq<char>, b: Seq<char>)
    ensures
        lowered(a + b) == lowered(a) + lowered(b),
    decreases b.len(),
{
    if b.len() == 0 {
        assert(a + b =~= a);
        assert(lowered(a) + lowered(b) =~= lowered(a));
    } else {
        lemma_lowered_add(a, b.drop_last());
        assert((a + b).drop_last() =~= a + b.drop_last());
        let x = lowered(a);
        let y = lowered(b.drop_last());
        let z = lower_of(b.last());
        assert((x + y) + z =~= x + (y + z));
    }
}

/// Of plain text the lower case is that of its ASCII letters.
pub proof fn lemma_lowered_plain(s: Seq<char>)
    requires
        is_plain_text(s),
    ensures
        lowered(s) == ascii_lowered(s),
    decreases s.len(),
{
    if s.len() > 0 {
        let rest = s.drop_last();
        assert forall|i: int| 0 <= i < rest.len() implies is_plain(#[trigger] rest[i]) by {
            assert(rest[i] == s[i]);
        }
        assert(is_plain(s[s.len() - 1]));
        lemma_lowered_plain(rest);
        assert(ascii_lowered(s) =~= ascii_lowered(rest) + seq![ascii_lower(s.last())]);
    } else {
        assert(ascii_lowered(s) =~= seq![]);
    }
}

// ---------------------------------------------------------------------------------------------
// Numbers
// ---------------------------------------------------------------------------------------------

/// The character of the decimal digit `d`.
pub open spec fn digit(d: nat) -> char {
    ('0' as u32 + d) as char
}

/// `n` in decimal, without leading zeros.
pub open spec fn decimal(n: nat) -> Seq<char>
    decreases n,
{
    if n < 10 {
        seq![digit(n)]
    } else {
        decimal(n / 10).push(digit(n % 10))
    }
}

/// `n` in decimal, with zeros before it up to at least `width` characters.
pub open spec fn padded(n: nat, width: nat) -> Seq<char> {
    let d = decimal(n);
    if d.len() < width {
        Seq::new((width - d.len()) as nat, |i: int| '0') + d
    } else {
        d
    }
}

/// Computes [`digit`].
fn digit_char(d: u64) -> (r: char)
    requires
        d < 10,
    ensures
        r == digit(d as nat),
{
    let b: u8 = d as u8;
    (48 + b) as char
}

/// `n` in decimal, without leading zeros.
pub fn to_decimal(n: u64) -> (r: String)
    ensures
        r@ == decimal(n as nat),
    decreases n,
{
    if n < 10 {
        let mut out = String::new();
        out.push(digit_char(n));
        assert(out@ =~= seq![digit(n as nat)]);
        out
    } else {
        let mut out = to_decimal(n / 10);
        out.push(digit_char(n % 10));
        out
    }
}

/// `n` in decimal, with zeros before it up to at least `width` characters.
pub fn to_padded(n: u64, width: usize) -> (r: String)
    ensures
        r@ == padded(n as nat, width as nat),
{
    let d = to_decimal(n);
    let len: usize = char_count(d.as_str());
    let mut out = String::new();
    let mut i: usize = len;
    while i < width
        invariant
            len == d@.len(),
            len <= i,
            i <= width || i == len,
            out@ == Seq::new((i - len) as nat, |k: int| '0'),
        decreases width - i,
    {
        out.push('0');
        i = i + 1;
        assert(out@ =~= Seq::new((i - len) as nat, |k: int| '0'));
    }
    push_str(&mut out, d.as_str());
    proof {
        if len >= width {
            assert(out@ =~= d@);
        }
    }
    out
}

// ---------------------------------------------------------------------------------------------
// What these come to
// ---------------------------------------------------------------------------------------------

/// Trimming takes white space off the two ends of a text and nothing else: what is left stands in
/// the text as it is, what was before and after it is white space, and it neither begins nor ends
/// with any.
pub proof fn law_only_white_space_is_trimmed(s: &[char], r: &[char])
    requires
        call_ensures(trim, (s,), r),
    ensures
        exists|a: int, b: int|
            0 <= a <= b <= s@.len() && r@ == #[trigger] s@.subrange(a, b) && is_blank(s@.take(a))
                && is_blank(s@.skip(b)),
        r@.len() > 0 ==> !is_space(r@[0]) && !is_space(r@.last()),
{
    let x = trimmed_start(s@);
    lemma_trimmed_start_shape(s@);
    lemma_trimmed_end_shape(x);
    let a = s@.len() - x.len();
    let b = a + trimmed(s@).len();
    assert(s@.subrange(a, b) =~= x.take(trimmed(s@).len() as int));
    assert(s@.skip(b) =~= x.skip(trimmed(s@).len() as int));
}

/// A text is blank exactly where trimming leaves nothing of it, and trimming twice is trimming once.
pub proof fn law_trimmed_stays(s: Seq<char>)
    ensures
        is_blank(s) <==> trimmed(s).len() == 0,
        trimmed(trimmed(s)) == trimmed(s),
{
    lemma_blank_iff_trimmed_empty(s);
    let x = trimmed_start(s);
    lemma_trimmed_start_shape(s);
    lemma_trimmed_end_shape(x);
    let t = trimmed(s);
    if t.len() > 0 {
        assert(t[0] == x[0]);
    }
}

/// The pieces of a text, put together with what separated them, are the text; and none of them
/// holds the separator, a single character.
pub proof fn law_pieces_make_the_text(s: Seq<char>, sep: Seq<char>)
    requires
        sep.len() == 1,
    ensures
        joined(pieces(s, sep), sep) == s,
        forall|i: int, k: int|
            0 <= i < pieces(s, sep).len() && 0 <= k < pieces(s, sep)[i].len() ==> (
            #[trigger] pieces(s, sep)[i][k]) != sep[0],
    decreases s.len(),
{
    lemma_first_from(s, sep, 0);
    match first_from(s, sep, 0) {
        Some(p) => {
            let rest = s.skip(p + 1);
            law_pieces_make_the_text(rest, sep);
            let head = s.take(p);
            let tail = pieces(rest, sep);
            lemma_joined_front(head, tail, sep);
            assert(s =~= head + sep + rest) by {
                assert(s.subrange(p, p + 1) =~= sep);
                assert(s[p] == s.subrange(p, p + 1)[0]);
            }
            assert forall|i: int, k: int|
                0 <= i < pieces(s, sep).len() && 0 <= k < pieces(s, sep)[i].len() implies (
            #[trigger] pieces(s, sep)[i][k]) != sep[0] by {
                if i == 0 {
                    assert(!occurs_at(s, sep, k));
                    if s[k] == sep[0] {
                        assert(s.subrange(k, k + 1) =~= sep);
                    }
                } else {
                    assert(pieces(s, sep)[i] == tail[i - 1]);
                    assert(tail[i - 1][k] != sep[0]);
                }
            }
        },
        None => {
            assert forall|k: int| 0 <= k < s.len() implies s[k] != sep[0] by {
                assert(!occurs_at(s, sep, k));
                if s[k] == sep[0] {
                    assert(s.subrange(k, k + 1) =~= sep);
                }
            }
        },
    }
}

proof fn lemma_joined_front(head: Seq<char>, tail: Seq<Seq<char>>, sep: Seq<char>)
    requires
        tail.len() > 0,
    ensures
        joined(seq![head] + tail, sep) == head + sep + joined(tail, sep),
    decreases tail.len(),
{
    let all = seq![head] + tail;
    if tail.len() == 1 {
        assert(all.drop_last() =~= seq![head]);
        assert(joined(all.drop_last(), sep) == head);
    } else {
        assert(all.drop_last() =~= seq![head] + tail.drop_last());
        lemma_joined_front(head, tail.drop_last(), sep);
        assert(head + sep + joined(tail.drop_last(), sep) + sep + tail.last() =~= head + sep + (
        joined(tail.drop_last(), sep) + sep + tail.last()));
    }
}

/// The lower case of a text has no capital of ASCII in it, is as long as the text, and differs from
/// it only where one stood.
pub proof fn law_lower_case(s: &[char], r: Vec<char>, i: int)
    requires
        call_ensures(ascii_lower_chars, (s,), r),
        0 <= i < s@.len(),
    ensures
        r@.len() == s@.len(),
        !('A' <= r@[i] <= 'Z'),
        'A' <= s@[i] <= 'Z' ==> r@[i] as int == s@[i] as int + 32,
        !('A' <= s@[i] <= 'Z') ==> r@[i] == s@[i],
{
}

} // verus!
