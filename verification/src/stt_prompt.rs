//! The initial prompt of a transcription: vocabulary for the recogniser, not instructions for the
//! model that cleans up.
use crate::text::{
    blank, chars_of, is_blank, owned, starts_with, string_of, strip_prefix, trim_text, trimmed,
};
use vstd::prelude::*;

verus! {

/// Where a file is.
#[derive(Debug, PartialEq, Eq)]
pub enum Location {
    /// At this path below the home directory.
    UnderHome(String),
    /// At this path.
    At(String),
}

/// A [`Location`] with its text.
pub enum LocationView {
    UnderHome(Seq<char>),
    At(Seq<char>),
}

impl View for Location {
    type V = LocationView;

    open spec fn view(&self) -> LocationView {
        match self {
            Location::UnderHome(p) => LocationView::UnderHome(p@),
            Location::At(p) => LocationView::At(p@),
        }
    }
}

/// The locations of a list.
pub open spec fn locations(list: Seq<Location>) -> Seq<LocationView> {
    list.map_values(|l: Location| l@)
}

/// What a path in the configuration means: `~/` is the home directory, where there is one.
pub open spec fn location_of(path: Seq<char>, has_home: bool) -> LocationView {
    if has_home && starts_with(path, "~/"@) {
        LocationView::UnderHome(path.skip("~/"@.len() as int))
    } else {
        LocationView::At(path)
    }
}

/// What a path in the configuration means.
pub fn locate(path: &str, has_home: bool) -> (r: Location)
    ensures
        r@ == location_of(path@, has_home),
{
    if has_home {
        let chars = chars_of(path);
        if let Some(rest) = strip_prefix(chars.as_slice(), "~/") {
            return Location::UnderHome(string_of(rest));
        }
    }
    Location::At(owned(path))
}

/// The files that may hold the prompt, the first one that does before the others: the one that the
/// configuration names, the one of this program, the one of all programs.
pub open spec fn candidates_of(prompt_file: Seq<char>) -> Seq<LocationView> {
    (if is_blank(prompt_file) {
        seq![]
    } else {
        seq![location_of(trimmed(prompt_file), true)]
    }) + seq![
        LocationView::UnderHome(".mori/mori-ear/stt-initial-prompt.md"@),
        LocationView::UnderHome(".mori/stt/initial-prompt.md"@),
    ]
}

/// The files that may hold the prompt, in the order in which they are asked.
pub fn candidates(prompt_file: &str) -> (r: Vec<Location>)
    ensures
        locations(r@) == candidates_of(prompt_file@),
{
    let mut out: Vec<Location> = Vec::new();
    if !blank(prompt_file) {
        out.push(locate(trim_text(prompt_file).as_str(), true));
    }
    out.push(Location::UnderHome(owned(".mori/mori-ear/stt-initial-prompt.md")));
    out.push(Location::UnderHome(owned(".mori/stt/initial-prompt.md")));
    assert(locations(out@) =~= candidates_of(prompt_file@));
    out
}

/// The texts of optional strings.
pub open spec fn opt_texts(list: Seq<Option<String>>) -> Seq<Option<Seq<char>>> {
    list.map_values(
        |s: Option<String>|
            match s {
                Some(t) => Some(t@),
                None => None,
            },
    )
}

/// The first text that holds anything, without the white space round it.
pub open spec fn first_text(list: Seq<Option<Seq<char>>>) -> Option<Seq<char>>
    decreases list.len(),
{
    if list.len() == 0 {
        None
    } else {
        match list[0] {
            Some(t) => if is_blank(t) {
                first_text(list.drop_first())
            } else {
                Some(trimmed(t))
            },
            None => first_text(list.drop_first()),
        }
    }
}

/// The prompt: the one that a request brings, else the first of the files that holds anything.
pub open spec fn resolved(
    request_prompt: Option<Seq<char>>,
    contents: Seq<Option<Seq<char>>>,
) -> Option<Seq<char>> {
    first_text(seq![request_prompt] + contents)
}

/// The prompt of a transcription. `contents` are what the files of [`candidates`] hold, where they
/// can be read.
pub fn resolve(request_prompt: Option<&str>, contents: &[Option<String>]) -> (r: Option<String>)
    ensures
        match resolved(crate::stt::opt(request_prompt), opt_texts(contents@)) {
            Some(p) => r matches Some(s) && s@ == p,
            None => r is None,
        },
{
    let ghost all = seq![crate::stt::opt(request_prompt)] + opt_texts(contents@);
    assert(all.drop_first() =~= opt_texts(contents@));
    if let Some(p) = request_prompt {
        if !blank(p) {
            return Some(trim_text(p));
        }
    }
    let mut i: usize = 0;
    assert(opt_texts(contents@).skip(0) =~= opt_texts(contents@));
    while i < contents.len()
        invariant
            i <= contents@.len(),
            first_text(opt_texts(contents@).skip(i as int)) == resolved(
                crate::stt::opt(request_prompt),
                opt_texts(contents@),
            ),
        decreases contents@.len() - i,
    {
        let ghost rest = opt_texts(contents@).skip(i as int);
        assert(rest.drop_first() =~= opt_texts(contents@).skip(i + 1));
        if let Some(t) = &contents[i] {
            if !blank(t.as_str()) {
                return Some(trim_text(t.as_str()));
            }
        }
        i = i + 1;
    }
    None
}

/// A request that brings a prompt gets it, whatever the files hold.
pub proof fn law_request_comes_first(prompt: Seq<char>, contents: Seq<Option<Seq<char>>>)
    requires
        !is_blank(prompt),
    ensures
        resolved(Some(prompt), contents) == Some(trimmed(prompt)),
{
    let all = seq![Some(prompt)] + contents;
    assert(all[0] == Some(prompt));
}

/// A prompt is never blank: an empty file counts as none.
pub proof fn law_no_blank_prompt(
    request_prompt: Option<Seq<char>>,
    contents: Seq<Option<Seq<char>>>,
)
    ensures
        resolved(request_prompt, contents) matches Some(p) ==> !is_blank(p),
{
    lemma_first_text_not_blank(seq![request_prompt] + contents);
}

proof fn lemma_first_text_not_blank(list: Seq<Option<Seq<char>>>)
    ensures
        first_text(list) matches Some(p) ==> !is_blank(p),
    decreases list.len(),
{
    if list.len() > 0 {
        lemma_first_text_not_blank(list.drop_first());
        if let Some(t) = list[0] {
            crate::text::lemma_blank_iff_trimmed_empty(t);
            crate::text::lemma_trimmed_start_shape(t);
            crate::text::lemma_trimmed_end_shape(crate::text::trimmed_start(t));
            if !is_blank(t) {
                assert(!crate::text::is_space(trimmed(t).last()));
                assert(trimmed(t)[trimmed(t).len() - 1] == trimmed(t).last());
            }
        }
    }
}

/// The prompt is the first that holds anything: that of the request, then those of the files in
/// their order. Those that are missing or blank are passed over, and nothing else is.
pub proof fn law_first_prompt_counts(
    request_prompt: Option<&str>,
    contents: &[Option<String>],
    r: Option<String>,
    i: int,
)
    requires
        call_ensures(resolve, (request_prompt, contents), r),
    ensures
        ({
            let list = seq![crate::stt::opt(request_prompt)] + opt_texts(contents@);
            &&& 0 <= i < list.len() && holds_text(list[i]) && (forall|k: int|
                0 <= k < i ==> !holds_text(#[trigger] list[k])) ==> (r matches Some(p) && p@
                == trimmed(list[i]->0))
            &&& (forall|k: int| 0 <= k < list.len() ==> !holds_text(#[trigger] list[k])) ==> r is None
        }),
{
    let list = seq![crate::stt::opt(request_prompt)] + opt_texts(contents@);
    lemma_first_text(list, i);
}

/// Whether there is a text, and it is not blank.
pub open spec fn holds_text(t: Option<Seq<char>>) -> bool {
    t matches Some(s) && !is_blank(s)
}

proof fn lemma_first_text(list: Seq<Option<Seq<char>>>, i: int)
    ensures
        0 <= i < list.len() && holds_text(list[i]) && (forall|k: int|
            0 <= k < i ==> !holds_text(#[trigger] list[k])) ==> first_text(list) == Some(
            trimmed(list[i]->0),
        ),
        (forall|k: int| 0 <= k < list.len() ==> !holds_text(#[trigger] list[k])) ==> first_text(
            list,
        ) is None,
    decreases list.len(),
{
    if list.len() > 0 && !holds_text(list[0]) {
        let rest = list.drop_first();
        lemma_first_text(rest, i - 1);
        if 0 < i < list.len() {
            assert(rest[i - 1] == list[i]);
        }
        if 0 <= i < list.len() && holds_text(list[i]) && (forall|k: int|
            0 <= k < i ==> !holds_text(#[trigger] list[k])) {
            assert forall|k: int| 0 <= k < i - 1 implies !holds_text(#[trigger] rest[k]) by {
                assert(!holds_text(list[k + 1]));
            }
        }
        if forall|k: int| 0 <= k < list.len() ==> !holds_text(#[trigger] list[k]) {
            assert forall|k: int| 0 <= k < rest.len() implies !holds_text(#[trigger] rest[k]) by {
                assert(!holds_text(list[k + 1]));
            }
        }
    }
}

/// The file that the configuration names comes before this program's, and that before the one of all
/// programs; where it names none, there are only the two.
pub proof fn law_order_of_prompt_files(prompt_file: &str, r: Vec<Location>)
    requires
        call_ensures(candidates, (prompt_file,), r),
    ensures
        r@.len() == if is_blank(prompt_file@) {
            2int
        } else {
            3
        },
        r@[r@.len() - 2]@ == LocationView::UnderHome(".mori/mori-ear/stt-initial-prompt.md"@),
        r@[r@.len() - 1]@ == LocationView::UnderHome(".mori/stt/initial-prompt.md"@),
        !is_blank(prompt_file@) ==> r@[0]@ == location_of(trimmed(prompt_file@), true),
{
    let all = locations(r@);
    assert(all.len() == r@.len());
    assert(all[r@.len() - 2] == r@[r@.len() - 2]@);
    assert(all[r@.len() - 1] == r@[r@.len() - 1]@);
    if !is_blank(prompt_file@) {
        assert(all[0] == r@[0]@);
    }
}

/// A path below the home directory is the rest of it after `~/`, and every other path is as it is
/// written; so is each where there is no home directory.
pub proof fn law_home_is_where_it_is_named(path: &str, rest: Seq<char>, has_home: bool, r: Location)
    requires
        call_ensures(locate, (path, has_home), r),
    ensures
        has_home && path@ == "~/"@ + rest ==> r@ == LocationView::UnderHome(rest),
        !has_home ==> r@ == LocationView::At(path@),
        r@ matches LocationView::UnderHome(p) ==> path@ == "~/"@ + p,
        r@ matches LocationView::At(p) ==> p == path@,
{
    let n = "~/"@.len() as int;
    if path@ == "~/"@ + rest {
        assert(path@.take(n) =~= "~/"@);
        assert(path@.skip(n) =~= rest);
    }
    if starts_with(path@, "~/"@) {
        assert(path@ =~= path@.take(n) + path@.skip(n));
    }
}

} // verus!
