//! A recording from the press of the hotkey to the text: when it begins and ends, in which order
//! its segments appear, and how they become one text.
use crate::hotkey::KeyEdge;
use crate::preview::{sent, Verdict};
use crate::stt_prompt::opt_texts;
use crate::text::{
    blank, char_count, concat, decimal, is_blank, join, joined, string_texts, to_decimal,
    trim_text, trimmed,
};
use vstd::prelude::*;

verus! {

// ---------------------------------------------------------------------------------------------
// Beginning and ending
// ---------------------------------------------------------------------------------------------

/// What is to be done about an edge of the hotkey.
#[derive(Debug, Clone, Copy, PartialEq, Eq, Structural)]
pub enum Act {
    /// A recording begins.
    Start,
    /// A recording begins, and ends by itself after this many seconds if they are not 0.
    StartFor(u64),
    /// The recording ends.
    Stop,
    Nothing,
}

/// What an edge means: the hotkey is held while recording, or pressed to begin and to end.
pub open spec fn act_of(recording: bool, toggle: bool, max_secs: u64, edge: KeyEdge) -> Act {
    match (toggle, edge) {
        (false, KeyEdge::Pressed) => if recording {
            Act::Nothing
        } else {
            Act::Start
        },
        (false, KeyEdge::Released) => if recording {
            Act::Stop
        } else {
            Act::Nothing
        },
        (true, KeyEdge::Pressed) => if recording {
            Act::Stop
        } else {
            Act::StartFor(max_secs)
        },
        (true, KeyEdge::Released) => Act::Nothing,
    }
}

/// What is to be done about an edge of the hotkey.
pub fn handle_event(recording: bool, toggle: bool, max_secs: u64, edge: KeyEdge) -> (r: Act)
    ensures
        r == act_of(recording, toggle, max_secs, edge),
{
    match edge {
        KeyEdge::Pressed => if toggle {
            if recording {
                Act::Stop
            } else {
                Act::StartFor(max_secs)
            }
        } else if recording {
            Act::Nothing
        } else {
            Act::Start
        },
        KeyEdge::Released => if !toggle && recording {
            Act::Stop
        } else {
            Act::Nothing
        },
    }
}

/// Whether there is a recording after an act; `opens` is whether the microphone can be opened.
pub open spec fn recording_after(recording: bool, act: Act, opens: bool) -> bool {
    match act {
        Act::Start => recording || opens,
        Act::StartFor(_) => recording || opens,
        Act::Stop => false,
        Act::Nothing => recording,
    }
}

/// Whether there is a recording after a number of edges, beginning with `recording`, where the
/// microphone can be opened.
pub open spec fn recording_through(
    recording: bool,
    toggle: bool,
    max_secs: u64,
    edges: Seq<KeyEdge>,
) -> bool
    decreases edges.len(),
{
    if edges.len() == 0 {
        recording
    } else {
        let before = recording_through(recording, toggle, max_secs, edges.drop_last());
        recording_after(before, act_of(before, toggle, max_secs, edges.last()), true)
    }
}

/// While the hotkey is held, and only then, there is a recording: after any edges, there is one
/// exactly if the last of them was a press.
pub proof fn law_hold_records_while_held(edges: Seq<KeyEdge>, max_secs: u64, recording: bool)
    requires
        edges.len() > 0,
    ensures
        recording_through(recording, false, max_secs, edges) <==> edges.last() == KeyEdge::Pressed,
{
}

/// How many of the edges are presses.
pub open spec fn press_count(edges: Seq<KeyEdge>) -> nat
    decreases edges.len(),
{
    if edges.len() == 0 {
        0
    } else {
        press_count(edges.drop_last()) + if edges.last() == KeyEdge::Pressed {
            1
        } else {
            0nat
        }
    }
}

/// Every other press of a toggled hotkey ends the recording, whatever is released between them.
pub proof fn law_toggle_counts_presses(edges: Seq<KeyEdge>, max_secs: u64)
    ensures
        recording_through(false, true, max_secs, edges) <==> press_count(edges) % 2 == 1,
    decreases edges.len(),
{
    if edges.len() > 0 {
        law_toggle_counts_presses(edges.drop_last(), max_secs);
    }
}

/// How long a toggled recording may last; nothing where it may go on.
pub fn arm_autostop(max_secs: u64) -> (r: Option<u64>)
    ensures
        r == if max_secs == 0 {
            None
        } else {
            Some(max_secs)
        },
{
    if max_secs == 0 {
        None
    } else {
        Some(max_secs)
    }
}

// ---------------------------------------------------------------------------------------------
// Segments
// ---------------------------------------------------------------------------------------------

/// What segment `n` is called, counted from 1.
pub fn segment_label(n: u64) -> (r: String)
    ensures
        r@ == "seg"@ + decimal(n as nat),
{
    concat("seg", to_decimal(n).as_str())
}

/// The text of an optional string.
pub open spec fn opt_view(s: Option<String>) -> Option<Seq<char>> {
    match s {
        Some(t) => Some(t@),
        None => None,
    }
}

/// What is added to the preview when a segment has been transcribed.
pub fn preview_line(text: &Option<String>) -> (r: Option<String>)
    ensures
        opt_view(r) == match opt_view(*text) {
            Some(t) => Some(trimmed(t)),
            None => None,
        },
{
    match text {
        Some(t) => Some(trim_text(t.as_str())),
        None => None,
    }
}

/// What is said in segments: of each that holds anything, its text without the white space round
/// it.
pub open spec fn parts_in(list: Seq<Option<Seq<char>>>) -> Seq<Seq<char>>
    decreases list.len(),
{
    if list.len() == 0 {
        seq![]
    } else {
        parts_in(list.drop_last()) + match list.last() {
            Some(t) => if is_blank(t) {
                seq![]
            } else {
                seq![trimmed(t)]
            },
            None => seq![],
        }
    }
}

/// The segments that are done, before the first that is not.
pub open spec fn done_before(slots: Seq<Option<Option<Seq<char>>>>) -> Seq<Option<Seq<char>>>
    decreases slots.len(),
{
    if slots.len() == 0 || slots[0] is None {
        seq![]
    } else {
        seq![slots[0]->0] + done_before(slots.drop_first())
    }
}

/// What appears of segments of which some are done: those before the first that is not.
pub open spec fn shown_of(slots: Seq<Option<Option<Seq<char>>>>) -> Seq<Seq<char>> {
    parts_in(done_before(slots))
}

/// A segment, while it is transcribed and then.
#[derive(Debug)]
enum Slot {
    Waiting,
    Done(Option<String>),
}

/// The segments of a recording, which appear in the order in which they were spoken. They are
/// transcribed at the same time, and one that is done waits for those before it.
#[derive(Debug)]
pub struct Emitter {
    slots: Vec<Slot>,
    /// How many have appeared.
    next: usize,
}

spec fn slot_view(s: Slot) -> Option<Option<Seq<char>>> {
    match s {
        Slot::Waiting => None,
        Slot::Done(t) => Some(opt_view(t)),
    }
}

impl Emitter {
    /// What each segment came to, if it is done.
    pub closed spec fn slots(self) -> Seq<Option<Option<Seq<char>>>> {
        self.slots@.map_values(|s: Slot| slot_view(s))
    }

    /// All segments before the first that is not done have appeared.
    pub closed spec fn wf(self) -> bool {
        self.next == done_before(self.slots()).len()
    }

    /// What has appeared.
    pub open spec fn shown(self) -> Seq<Seq<char>> {
        shown_of(self.slots())
    }

    /// A recording without segments.
    pub fn new() -> (r: Emitter)
        ensures
            r.wf(),
            r.slots().len() == 0,
    {
        let r = Emitter { slots: Vec::new(), next: 0 };
        assert(r.slots() =~= seq![]);
        r
    }

    /// A new recording begins.
    pub fn reset(&mut self)
        ensures
            final(self).wf(),
            final(self).slots().len() == 0,
    {
        *self = Emitter::new();
    }

    /// Another segment has been spoken. Its number is returned.
    pub fn expect(&mut self) -> (r: usize)
        requires
            old(self).wf(),
        ensures
            final(self).wf(),
            r == old(self).slots().len(),
            final(self).slots() == old(self).slots().push(None),
            final(self).shown() == old(self).shown(),
    {
        let n: usize = self.slots.len();
        let ghost before = self.slots();
        self.slots.push(Slot::Waiting);
        proof {
            assert(self.slots() =~= before.push(None));
            lemma_waiting_shows_nothing(before);
        }
        n
    }

    /// Segment `n` is done. Returned is what is to appear now.
    pub fn in_order(&mut self, n: usize, text: Option<String>) -> (r: Vec<String>)
        requires
            old(self).wf(),
            n < old(self).slots().len(),
            old(self).slots()[n as int] is None,
        ensures
            final(self).wf(),
            final(self).slots() == old(self).slots().update(n as int, Some(opt_view(text))),
            final(self).shown() == old(self).shown() + string_texts(r@),
    {
        let ghost before = self.slots();
        let ghost want = before.update(n as int, Some(opt_view(text)));
        let ghost first = self.next as int;
        self.slots.set(n, Slot::Done(text));
        assert(self.slots() =~= want);
        proof {
            lemma_done_before(before);
            lemma_done_before(want);
            lemma_agreeing(before, want);
        }
        let mut out: Vec<String> = Vec::new();
        assert(string_texts(out@) =~= seq![]);
        let ghost all = done_before(want);
        assert(all.take(first) =~= done_before(before));
        let total: usize = self.slots.len();
        while self.next < total && self.is_done(self.next)
            invariant
                total == self.slots@.len(),
                self.slots() == want,
                all == done_before(want),
                all.len() <= want.len(),
                first <= self.next <= all.len(),
                forall|i: int| 0 <= i < all.len() ==> want[i] == Some(#[trigger] all[i]),
                all.len() < want.len() ==> want[all.len() as int] is None,
                parts_in(all.take(self.next as int)) == parts_in(all.take(first)) + string_texts(
                    out@,
                ),
            decreases total - self.next,
        {
            let k: usize = self.next;
            proof {
                assert(want[k as int] == slot_view(self.slots@[k as int]));
                assert(want[k as int] == Some(all[k as int]));
                assert(all.take(k + 1) =~= all.take(k as int).push(all[k as int]));
                lemma_parts_push(all.take(k as int), all[k as int]);
            }
            let ghost was = string_texts(out@);
            if let Slot::Done(t) = &self.slots[k] {
                push_part(&mut out, t);
            }
            proof {
                let x = parts_in(all.take(first));
                let y = parts_in(seq![all[k as int]]);
                assert((x + was) + y =~= x + (was + y));
            }
            self.next = k + 1;
        }
        proof {
            assert(want.len() == total);
            if self.next < all.len() {
                assert(want[self.next as int] == Some(all[self.next as int]));
            }
            assert(all.take(self.next as int) =~= all);
        }
        out
    }

    fn is_done(&self, k: usize) -> (r: bool)
        requires
            k < self.slots@.len(),
        ensures
            r == (self.slots()[k as int] is Some),
    {
        match self.slots[k] {
            Slot::Done(_) => true,
            Slot::Waiting => false,
        }
    }
}

proof fn lemma_done_before(slots: Seq<Option<Option<Seq<char>>>>)
    ensures
        done_before(slots).len() <= slots.len(),
        forall|i: int|
            0 <= i < done_before(slots).len() ==> slots[i] == Some(#[trigger] done_before(slots)[i]),
        done_before(slots).len() < slots.len() ==> slots[done_before(slots).len() as int] is None,
    decreases slots.len(),
{
    if slots.len() > 0 && slots[0] is Some {
        let rest = slots.drop_first();
        lemma_done_before(rest);
        assert forall|i: int| 0 <= i < done_before(slots).len() implies slots[i] == Some(
            #[trigger] done_before(slots)[i],
        ) by {
            if i > 0 {
                assert(rest[i - 1] == Some(done_before(rest)[i - 1]));
            }
        }
        if done_before(rest).len() < rest.len() {
            assert(rest[done_before(rest).len() as int] == slots[done_before(rest).len() as int + 1]);
        }
    }
}

/// Where the second has what the first has, what is done before the first gap of the first comes
/// first in the second.
proof fn lemma_agreeing(a: Seq<Option<Option<Seq<char>>>>, b: Seq<Option<Option<Seq<char>>>>)
    requires
        a.len() <= b.len(),
        forall|i: int| 0 <= i < a.len() && a[i] is Some ==> b[i] == #[trigger] a[i],
    ensures
        done_before(a).len() <= done_before(b).len(),
        done_before(b).take(done_before(a).len() as int) == done_before(a),
    decreases a.len(),
{
    if a.len() > 0 && a[0] is Some {
        let ra = a.drop_first();
        let rb = b.drop_first();
        assert forall|i: int| 0 <= i < ra.len() && ra[i] is Some implies rb[i] == #[trigger] ra[i] by {
            assert(ra[i] == a[i + 1]);
        }
        lemma_agreeing(ra, rb);
        let n = done_before(ra).len() as int;
        assert(done_before(b).take(n + 1) =~= seq![b[0]->0] + done_before(rb).take(n));
    } else {
        assert(done_before(b).take(0) =~= done_before(a));
    }
}

proof fn lemma_waiting_shows_nothing(slots: Seq<Option<Option<Seq<char>>>>)
    ensures
        done_before(slots.push(None)) == done_before(slots),
    decreases slots.len(),
{
    if slots.len() > 0 {
        assert(slots.push(None).drop_first() =~= slots.drop_first().push(None));
        lemma_waiting_shows_nothing(slots.drop_first());
    }
}

proof fn lemma_parts_add(a: Seq<Option<Seq<char>>>, b: Seq<Option<Seq<char>>>)
    ensures
        parts_in(a + b) == parts_in(a) + parts_in(b),
    decreases b.len(),
{
    if b.len() == 0 {
        assert(a + b =~= a);
        assert(parts_in(a) + parts_in(b) =~= parts_in(a));
    } else {
        assert(a + b =~= (a + b.drop_last()).push(b.last()));
        assert(b =~= b.drop_last().push(b.last()));
        lemma_parts_add(a, b.drop_last());
        lemma_parts_push(a + b.drop_last(), b.last());
        lemma_parts_push(b.drop_last(), b.last());
        let x = parts_in(a);
        let y = parts_in(b.drop_last());
        let z = parts_in(seq![b.last()]);
        assert((x + y) + z =~= x + (y + z));
    }
}

/// In whatever order segments are done, what has appeared is the beginning of what was said:
/// `said` is what all segments come to in the end. When all are done, all of it has appeared.
pub proof fn law_segments_appear_in_order(
    slots: Seq<Option<Option<Seq<char>>>>,
    said: Seq<Option<Seq<char>>>,
)
    requires
        slots.len() <= said.len(),
        forall|i: int| 0 <= i < slots.len() && slots[i] is Some ==> #[trigger] slots[i] == Some(
            said[i],
        ),
    ensures
        shown_of(slots).len() <= parts_in(said).len(),
        parts_in(said).take(shown_of(slots).len() as int) == shown_of(slots),
        slots.len() == said.len() && (forall|i: int|
            0 <= i < slots.len() ==> (#[trigger] slots[i]) is Some) ==> shown_of(slots) == parts_in(
            said,
        ),
{
    lemma_done_before(slots);
    let d = done_before(slots);
    let n = d.len() as int;
    assert forall|i: int| 0 <= i < n implies d[i] == said[i] by {
        assert(slots[i] == Some(d[i]));
    }
    assert(said.take(n) =~= d);
    assert(said =~= said.take(n) + said.skip(n));
    lemma_parts_add(said.take(n), said.skip(n));
    assert(parts_in(said).take(parts_in(d).len() as int) =~= parts_in(d));
    if slots.len() == said.len() && n == said.len() {
        assert(said.skip(n) =~= seq![]);
        assert(parts_in(said) =~= parts_in(d));
    }
}

/// The segments when those in `order` have been done, one after the other; `said` is what each
/// comes to.
pub open spec fn done_in(
    slots: Seq<Option<Option<Seq<char>>>>,
    said: Seq<Option<Seq<char>>>,
    order: Seq<int>,
) -> Seq<Option<Option<Seq<char>>>>
    decreases order.len(),
{
    if order.len() == 0 {
        slots
    } else {
        done_in(slots, said, order.drop_last()).update(order.last(), Some(said[order.last()]))
    }
}

/// `count` segments of which none is done.
pub open spec fn all_waiting(count: nat) -> Seq<Option<Option<Seq<char>>>> {
    Seq::new(count, |i: int| None)
}

proof fn lemma_done_in(said: Seq<Option<Seq<char>>>, order: Seq<int>)
    requires
        forall|i: int| 0 <= i < order.len() ==> 0 <= #[trigger] order[i] < said.len(),
    ensures
        done_in(all_waiting(said.len()), said, order).len() == said.len(),
        forall|n: int|
            0 <= n < said.len() ==> #[trigger] done_in(all_waiting(said.len()), said, order)[n]
                == if order.contains(n) {
                Some(said[n])
            } else {
                None
            },
    decreases order.len(),
{
    if order.len() > 0 {
        let rest = order.drop_last();
        lemma_done_in(said, rest);
        assert forall|n: int| 0 <= n < said.len() implies #[trigger] done_in(
            all_waiting(said.len()),
            said,
            order,
        )[n] == if order.contains(n) {
            Some(said[n])
        } else {
            None
        } by {
            assert(order.contains(n) <==> rest.contains(n) || order.last() == n) by {
                if rest.contains(n) {
                    let i = rest.index_of(n);
                    assert(order[i] == n);
                }
                if order.last() == n {
                    assert(order[order.len() - 1] == n);
                }
                if order.contains(n) && order.last() != n {
                    let i = order.index_of(n);
                    assert(rest[i] == n);
                }
            }
        }
    }
}

/// Segments that are done in any order, each of them once, appear in the order in which they were
/// spoken, each of them once: after `m` of them what has appeared is the beginning of what was
/// said, and after the last one it is all of it. None is done a second time.
pub proof fn law_any_order_gives_speech_order(
    said: Seq<Option<Seq<char>>>,
    order: Seq<int>,
    m: int,
)
    requires
        order.no_duplicates(),
        forall|n: int| order.contains(n) <==> 0 <= n < said.len(),
        0 <= m <= order.len(),
    ensures
        ({
            let shown = shown_of(done_in(all_waiting(said.len()), said, order.take(m)));
            &&& shown.len() <= parts_in(said).len()
            &&& parts_in(said).take(shown.len() as int) == shown
        }),
        shown_of(done_in(all_waiting(said.len()), said, order)) == parts_in(said),
        m > 0 ==> done_in(all_waiting(said.len()), said, order.take(m - 1))[order[m - 1]] is None,
{
    assert forall|i: int| 0 <= i < order.len() implies 0 <= #[trigger] order[i] < said.len() by {
        assert(order.contains(order[i]));
    }
    let some = order.take(m);
    assert forall|i: int| 0 <= i < some.len() implies 0 <= #[trigger] some[i] < said.len() by {
        assert(some[i] == order[i]);
    }
    lemma_done_in(said, some);
    lemma_done_in(said, order);
    law_segments_appear_in_order(done_in(all_waiting(said.len()), said, some), said);
    let last = done_in(all_waiting(said.len()), said, order);
    assert forall|n: int| 0 <= n < last.len() implies (#[trigger] last[n]) is Some by {
        assert(order.contains(n));
    }
    law_segments_appear_in_order(last, said);
    if m > 0 {
        let before = order.take(m - 1);
        assert forall|i: int| 0 <= i < before.len() implies 0 <= #[trigger] before[i]
            < said.len() by {
            assert(before[i] == order[i]);
        }
        lemma_done_in(said, before);
        if before.contains(order[m - 1]) {
            let i = before.index_of(order[m - 1]);
            assert(order[i] == order[m - 1]);
        }
    }
}

/// What a whole recording comes to: its segments and then its tail, one after the other; nothing
/// where none of them holds anything.
pub open spec fn whole_text(segments: Seq<Option<Seq<char>>>, tail: Option<Seq<char>>) -> Option<
    Seq<char>,
> {
    let parts = parts_in(segments.push(tail));
    if parts.len() == 0 {
        None
    } else {
        Some(joined(parts, ""@))
    }
}

fn push_part(parts: &mut Vec<String>, text: &Option<String>)
    ensures
        string_texts(final(parts)@) == string_texts(old(parts)@)
            + parts_in(seq![opt_view(*text)]),
{
    let ghost before = parts@;
    proof {
        let one = seq![opt_view(*text)];
        assert(one.drop_last() =~= seq![]);
        assert(one.last() == opt_view(*text));
        reveal_with_fuel(parts_in, 2);
    }
    if let Some(t) = text {
        if !blank(t.as_str()) {
            parts.push(trim_text(t.as_str()));
        }
    }
    assert(string_texts(parts@) =~= string_texts(before) + parts_in(
        seq![opt_view(*text)],
    ));
}

proof fn lemma_parts_push(list: Seq<Option<Seq<char>>>, x: Option<Seq<char>>)
    ensures
        parts_in(list.push(x)) == parts_in(list) + parts_in(seq![x]),
{
    assert(list.push(x).drop_last() =~= list);
    let one = seq![x];
    assert(one.drop_last() =~= seq![]);
    reveal_with_fuel(parts_in, 2);
    assert(parts_in(one) =~= match x {
        Some(t) => if is_blank(t) {
            seq![]
        } else {
            seq![trimmed(t)]
        },
        None => seq![],
    });
}

/// The text of a recording. `segments` are what its segments came to and was kept, in the order in
/// which they were spoken; `tail` is what was said after the last pause.
pub fn assemble(segments: &[Option<String>], tail: &Option<String>) -> (r: Option<String>)
    ensures
        opt_view(r) == whole_text(opt_texts(segments@), opt_view(*tail)),
{
    let ghost all = opt_texts(segments@);
    let mut parts: Vec<String> = Vec::new();
    let mut i: usize = 0;
    assert(all.take(0) =~= seq![]);
    assert(string_texts(parts@) =~= seq![]);
    while i < segments.len()
        invariant
            i <= segments@.len(),
            all == opt_texts(segments@),
            string_texts(parts@) == parts_in(all.take(i as int)),
        decreases segments@.len() - i,
    {
        proof {
            assert(all.take(i + 1) =~= all.take(i as int).push(all[i as int]));
            assert(all[i as int] == opt_view(segments@[i as int]));
            lemma_parts_push(all.take(i as int), all[i as int]);
        }
        push_part(&mut parts, &segments[i]);
        i = i + 1;
    }
    proof {
        assert(all.take(i as int) =~= all);
        lemma_parts_push(all, opt_view(*tail));
    }
    push_part(&mut parts, tail);
    if parts.len() == 0 {
        assert(parts_in(all.push(opt_view(*tail))) =~= seq![]);
        None
    } else {
        assert(string_texts(parts@).len() == parts@.len());
        Some(join(&parts, ""))
    }
}

proof fn lemma_joined_add(a: Seq<Seq<char>>, b: Seq<Seq<char>>)
    ensures
        joined(a + b, ""@) == joined(a, ""@) + joined(b, ""@),
    decreases b.len(),
{
    reveal_strlit("");
    let x = joined(a, ""@);
    if b.len() == 0 {
        assert(a + b =~= a);
        assert(x + joined(b, ""@) =~= x);
    } else {
        let rest = b.drop_last();
        let all = a + b;
        assert(all.drop_last() =~= a + rest);
        assert(all.last() == b.last());
        lemma_joined_add(a, rest);
        let y = joined(rest, ""@);
        assert(joined(b, ""@) =~= y + b.last());
        if all.len() == 1 {
            assert(a =~= seq![]);
            assert(x + joined(b, ""@) =~= b.last());
            assert(all[0] == b.last());
        } else {
            assert(joined(all, ""@) =~= (x + y) + b.last());
            assert((x + y) + b.last() =~= x + (y + b.last()));
        }
    }
}

/// Text that is pasted segment by segment, and then the tail, is the text that is pasted at the
/// end where segments are kept.
pub proof fn law_live_paste_gives_the_same_text(
    segments: Seq<Option<Seq<char>>>,
    tail: Option<Seq<char>>,
)
    ensures
        joined(parts_in(segments), ""@) + joined(parts_in(seq![tail]), ""@) == match whole_text(
            segments,
            tail,
        ) {
            Some(t) => t,
            None => seq![],
        },
{
    lemma_parts_push(segments, tail);
    lemma_joined_add(parts_in(segments), parts_in(seq![tail]));
}

// ---------------------------------------------------------------------------------------------
// Delivery
// ---------------------------------------------------------------------------------------------

/// Whether long texts are shown in an editor before they are sent: not where they have been pasted
/// already.
pub fn asks_first(preview_on: bool, live_paste: bool) -> (r: bool)
    ensures
        r == (preview_on && !live_paste),
{
    preview_on && !live_paste
}

/// Whether a text is shown in an editor before it is sent: it is longer than `limit` characters.
pub fn needs_confirmation(text: &str, ask: bool, limit: usize) -> (r: bool)
    ensures
        r == (ask && text@.len() > limit),
{
    ask && char_count(text) > limit
}

/// What is sent of a text that was shown in an editor: what the user left in it, and the text
/// itself where the editor could not be opened.
pub fn after_confirmation(text: String, verdict: Option<Verdict>) -> (r: Option<String>)
    ensures
        opt_view(r) == match verdict {
            Some(v) => sent(v),
            None => Some(text@),
        },
{
    match verdict {
        Some(Verdict::Send(edited)) => Some(edited),
        Some(Verdict::Discard) => None,
        None => Some(text),
    }
}

// ---------------------------------------------------------------------------------------------
// What these come to
// ---------------------------------------------------------------------------------------------

/// A recording that is toggled ends by itself after the time that is set, and one that is made while
/// the hotkey is held does not; nothing begins while there is a recording, and nothing ends where
/// there is none.
pub proof fn law_limit_holds_for_toggled_recordings(
    recording: bool,
    toggle: bool,
    max_secs: u64,
    edge: KeyEdge,
    r: Act,
)
    requires
        call_ensures(handle_event, (recording, toggle, max_secs, edge), r),
    ensures
        r is StartFor ==> toggle && r == Act::StartFor(max_secs),
        r is Start ==> !toggle,
        r is Start || r is StartFor ==> !recording && edge == KeyEdge::Pressed,
        r is Stop ==> recording,
        !recording && edge == KeyEdge::Pressed ==> r is Start || r is StartFor,
        recording && edge == KeyEdge::Pressed ==> (r is Stop <==> toggle),
        recording && edge == KeyEdge::Released ==> (r is Stop <==> !toggle),
{
}

/// A limit of 0 seconds is none, and any other is kept.
pub proof fn law_no_limit_is_zero(max_secs: u64, r: Option<u64>)
    requires
        call_ensures(arm_autostop, (max_secs,), r),
    ensures
        r is None <==> max_secs == 0,
        r matches Some(n) ==> n == max_secs,
{
}

/// What is said in segments is what is said in them, one after the other: nothing is added, lost or
/// moved. One that is missing or blank says nothing, and any other its text without the white space
/// round it.
pub proof fn law_segments_say_what_they_hold(
    a: Seq<Option<Seq<char>>>,
    b: Seq<Option<Seq<char>>>,
    t: Seq<char>,
)
    ensures
        parts_in(a + b) == parts_in(a) + parts_in(b),
        parts_in(seq![]) == Seq::<Seq<char>>::empty(),
        parts_in(seq![None]) == Seq::<Seq<char>>::empty(),
        parts_in(seq![Some(t)]) == if is_blank(t) {
            Seq::<Seq<char>>::empty()
        } else {
            seq![trimmed(t)]
        },
{
    lemma_parts_add(a, b);
    assert(seq![None::<Seq<char>>].drop_last() =~= Seq::<Option<Seq<char>>>::empty());
    assert(seq![Some(t)].drop_last() =~= Seq::<Option<Seq<char>>>::empty());
    assert(parts_in(Seq::<Option<Seq<char>>>::empty()) =~= Seq::<Seq<char>>::empty());
    assert(parts_in(seq![None::<Seq<char>>]) =~= Seq::<Seq<char>>::empty());
    assert(parts_in(seq![Some(t)]) =~= if is_blank(t) {
        Seq::<Seq<char>>::empty()
    } else {
        seq![trimmed(t)]
    });
}

/// The text of a recording is what its segments and its tail say, one after the other with nothing
/// between them; there is none exactly where they say nothing.
pub proof fn law_whole_text_is_what_was_said(
    segments: &[Option<String>],
    tail: Option<String>,
    r: Option<String>,
)
    requires
        call_ensures(assemble, (segments, &tail), r),
    ensures
        ({
            let said = parts_in(opt_texts(segments@)) + parts_in(seq![opt_view(tail)]);
            &&& r is None <==> said.len() == 0
            &&& r matches Some(t) ==> t@ == joined(said, Seq::<char>::empty())
        }),
{
    let list = opt_texts(segments@);
    assert(list.push(opt_view(tail)) =~= list + seq![opt_view(tail)]);
    lemma_parts_add(list, seq![opt_view(tail)]);
    reveal_strlit("");
    assert(""@ =~= Seq::<char>::empty());
}

/// A text is shown before it is sent where that is wanted and it is longer than the limit, counted
/// in characters: a longer text never goes out sooner than a shorter one.
pub proof fn law_long_texts_are_confirmed(
    a: &str,
    b: &str,
    limit: usize,
    asked: bool,
    r: bool,
    s: bool,
)
    requires
        call_ensures(needs_confirmation, (a, asked, limit), r),
        call_ensures(needs_confirmation, (b, asked, limit), s),
    ensures
        a@.len() <= b@.len() && r ==> s,
        r ==> asked,
        asked ==> (r <==> limit < a@.len()),
{
}

/// Text that has been pasted already is not asked about, and none is without a preview.
pub proof fn law_pasted_text_is_not_asked_about(preview_on: bool, live_paste: bool, r: bool)
    requires
        call_ensures(asks_first, (preview_on, live_paste), r),
    ensures
        live_paste ==> !r,
        !preview_on ==> !r,
        preview_on && !live_paste ==> r,
{
}

/// What the user leaves in the editor is sent; nothing where it is discarded, and the text itself
/// where there was no editor.
pub proof fn law_the_user_has_the_last_word(
    text: String,
    verdict: Option<Verdict>,
    r: Option<String>,
)
    requires
        call_ensures(after_confirmation, (text, verdict), r),
    ensures
        verdict is None ==> (r matches Some(t) && t@ == text@),
        verdict == Some(Verdict::Discard) ==> r is None,
        verdict matches Some(Verdict::Send(x)) ==> (r matches Some(t) && t@ == x@),
{
}

/// What is shown of a segment is what it says, without the white space round it.
pub proof fn law_preview_shows_what_is_said(text: Option<String>, r: Option<String>)
    requires
        call_ensures(preview_line, (&text,), r),
    ensures
        r is Some <==> text is Some,
        r matches Some(t) ==> t@ == trimmed(text->0@),
{
}

} // verus!
