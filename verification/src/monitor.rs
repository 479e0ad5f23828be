//! Notifications of a Linux desktop, read off the lines that the bus monitor prints, and the
//! memory by which one that is shown twice in a row is forwarded once.
//! Times are nanoseconds of a clock that does not go back.

use vstd::prelude::*;
use crate::behavior::{category_for, map_category};
use crate::command::{ForwardedNotification, ForwardedView};
use crate::message::category_number;
use crate::text::{chars_of, contains, find_chars, first_at, has_text, part, same_text, text_of};
use crate::text::{trim, trim_chars, trim_start, trim_start_chars, take_up_to_any, up_to_any};
use crate::wrap::texts;

verus! {

/// For how long a notification is remembered.
pub const DEDUP_NANOS: u64 = 4_000_000_000;

/// Whether something seen at `seen_at` is still remembered at `now`. Where the clock went back,
/// `keep_future` decides.
pub open spec fn remembered(seen_at: u64, now: u64, keep_future: bool) -> bool {
    if seen_at <= now {
        now - seen_at < DEDUP_NANOS
    } else {
        keep_future
    }
}

/// What was forwarded lately, by signature and time.
pub struct Recent {
    pub entries: Vec<(String, u64)>,
}

/// What was forwarded lately, as seen by the contracts.
pub open spec fn entries_view(v: Seq<(String, u64)>) -> Seq<(Seq<char>, u64)> {
    v.map_values(|e: (String, u64)| (e.0@, e.1))
}

impl View for Recent {
    type V = Seq<(Seq<char>, u64)>;

    open spec fn view(&self) -> Seq<(Seq<char>, u64)> {
        entries_view(self.entries@)
    }
}

/// The entries that are still remembered.
pub open spec fn retained(entries: Seq<(Seq<char>, u64)>, now: u64, keep_future: bool) -> Seq<
    (Seq<char>, u64),
>
    decreases entries.len(),
{
    if entries.len() == 0 {
        Seq::empty()
    } else {
        let before = retained(entries.drop_last(), now, keep_future);
        if remembered(entries.last().1, now, keep_future) {
            before.push(entries.last())
        } else {
            before
        }
    }
}

/// Whether a signature is among the entries.
pub open spec fn knows(entries: Seq<(Seq<char>, u64)>, signature: Seq<char>) -> bool {
    exists|i: int| 0 <= i < entries.len() && (#[trigger] entries[i]).0 == signature
}

/// No signature stands twice.
pub open spec fn no_repeats(entries: Seq<(Seq<char>, u64)>) -> bool {
    forall|i: int, j: int|
        0 <= i < j < entries.len() ==> (#[trigger] entries[i]).0 != (#[trigger] entries[j]).0
}

/// The memory after a signature came by, and whether it is new. One that is not new leaves no
/// trace.
pub open spec fn admitted(
    entries: Seq<(Seq<char>, u64)>,
    signature: Seq<char>,
    now: u64,
    keep_future: bool,
) -> (Seq<(Seq<char>, u64)>, bool) {
    let kept = retained(entries, now, keep_future);
    if knows(kept, signature) {
        (kept, false)
    } else {
        (kept.push((signature, now)), true)
    }
}

proof fn lemma_retained(entries: Seq<(Seq<char>, u64)>, now: u64, keep_future: bool)
    ensures
        no_repeats(entries) ==> no_repeats(retained(entries, now, keep_future)),
        forall|e: (Seq<char>, u64)|
            #[trigger] retained(entries, now, keep_future).contains(e) <==> entries.contains(e) && remembered(
                e.1,
                now,
                keep_future,
            ),
    decreases entries.len(),
{
    let kept = retained(entries, now, keep_future);
    if entries.len() > 0 {
        let front = entries.drop_last();
        let before = retained(front, now, keep_future);
        lemma_retained(front, now, keep_future);
        if no_repeats(entries) {
            assert forall|i: int, j: int| 0 <= i < j < front.len() implies (#[trigger] front[i]).0
                != (#[trigger] front[j]).0 by {
                assert(front[i] == entries[i] && front[j] == entries[j]);
            }
            assert forall|i: int, j: int| 0 <= i < j < kept.len() implies (#[trigger] kept[i]).0
                != (#[trigger] kept[j]).0 by {
                if j < before.len() {
                    assert(kept[i] == before[i] && kept[j] == before[j]);
                } else {
                    assert(kept[i] == before[i]);
                    assert(before.contains(before[i]));
                    assert(front.contains(before[i]));
                    let k = choose|k: int| 0 <= k < front.len() && front[k] == before[i];
                    assert(entries[k] == kept[i]);
                    assert(kept[j] == entries.last());
                }
            }
        }
        assert forall|e: (Seq<char>, u64)| #[trigger] kept.contains(e) <==> entries.contains(e) && remembered(
            e.1,
            now,
            keep_future,
        ) by {
            if kept.contains(e) {
                let k = choose|k: int| 0 <= k < kept.len() && kept[k] == e;
                if k < before.len() {
                    assert(before[k] == e);
                    assert(before.contains(e));
                    assert(front.contains(e));
                    let m = choose|m: int| 0 <= m < front.len() && front[m] == e;
                    assert(entries[m] == e);
                } else {
                    assert(entries.last() == e);
                }
            }
            if entries.contains(e) && remembered(e.1, now, keep_future) {
                let k = choose|k: int| 0 <= k < entries.len() && entries[k] == e;
                if k < front.len() {
                    assert(front[k] == e);
                    assert(before.contains(e));
                    let m = choose|m: int| 0 <= m < before.len() && before[m] == e;
                    assert(kept[m] == e);
                } else {
                    assert(kept.last() == e);
                }
            }
        }
    }
}

proof fn lemma_admitted(
    entries: Seq<(Seq<char>, u64)>,
    signature: Seq<char>,
    now: u64,
    keep_future: bool,
)
    requires
        no_repeats(entries),
    ensures
        no_repeats(admitted(entries, signature, now, keep_future).0),
{
    lemma_retained(entries, now, keep_future);
}

impl Recent {
    /// Nothing was forwarded.
    pub fn new() -> (r: Self)
        ensures
            r@ == Seq::<(Seq<char>, u64)>::empty(),
            no_repeats(r@),
    {
        let r = Recent { entries: Vec::new() };
        assert(r@ =~= Seq::<(Seq<char>, u64)>::empty());
        r
    }

    fn forget_old(&mut self, now: u64, keep_future: bool)
        ensures
            final(self)@ == retained(old(self)@, now, keep_future),
    {
        let mut kept: Vec<(String, u64)> = Vec::new();
        let ghost all = self@;
        let mut i: usize = 0;
        assert(entries_view(kept@) =~= retained(all.take(0), now, keep_future));
        while i < self.entries.len()
            invariant
                i <= self.entries@.len(),
                all == entries_view(self.entries@),
                entries_view(kept@) == retained(all.take(i as int), now, keep_future),
            decreases self.entries@.len() - i,
        {
            let seen_at: u64 = self.entries[i].1;
            let keep = if seen_at <= now {
                now - seen_at < DEDUP_NANOS
            } else {
                keep_future
            };
            let ghost before = entries_view(kept@);
            if keep {
                kept.push((self.entries[i].0.clone(), seen_at));
                assert(entries_view(kept@) =~= before.push(all[i as int]));
            }
            i = i + 1;
            assert(all.take(i as int).drop_last() =~= all.take(i - 1));
        }
        assert(all.take(i as int) =~= all);
        self.entries = kept;
    }

    fn has(&self, signature: &str) -> (r: bool)
        ensures
            r == knows(self@, signature@),
    {
        let mut i: usize = 0;
        while i < self.entries.len()
            invariant
                i <= self.entries@.len(),
                forall|j: int| 0 <= j < i ==> (#[trigger] self@[j]).0 != signature@,
            decreases self.entries@.len() - i,
        {
            if same_text(self.entries[i].0.as_str(), signature) {
                assert(self@[i as int].0 == signature@);
                return true;
            }
            i = i + 1;
        }
        false
    }

    /// Whether something is new: no signature like it came by in the last four seconds. What is
    /// new is remembered.
    pub fn take_note(&mut self, signature: String, now: u64, keep_future: bool) -> (r: bool)
        requires
            no_repeats(old(self)@),
        ensures
            no_repeats(final(self)@),
            (final(self)@, r) == admitted(old(self)@, signature@, now, keep_future),
    {
        proof {
            lemma_admitted(self@, signature@, now, keep_future);
        }
        self.forget_old(now, keep_future);
        if self.has(signature.as_str()) {
            return false;
        }
        let ghost before = self@;
        let ghost entry = (signature@, now);
        self.entries.push((signature, now));
        assert(self@ =~= before.push(entry));
        true
    }
}

/// The memory after signatures came by, each at its time.
pub open spec fn after_comings(
    entries: Seq<(Seq<char>, u64)>,
    comings: Seq<(Seq<char>, u64)>,
    keep_future: bool,
) -> Seq<(Seq<char>, u64)>
    decreases comings.len(),
{
    if comings.len() == 0 {
        entries
    } else {
        let (signature, now) = comings.last();
        admitted(
            after_comings(entries, comings.drop_last(), keep_future),
            signature,
            now,
            keep_future,
        ).0
    }
}

/// The time of the last coming of a signature that was new; `first` where there was none.
pub open spec fn last_new(
    entries: Seq<(Seq<char>, u64)>,
    comings: Seq<(Seq<char>, u64)>,
    keep_future: bool,
    signature: Seq<char>,
    first: u64,
) -> u64
    decreases comings.len(),
{
    if comings.len() == 0 {
        first
    } else {
        let before = comings.drop_last();
        let (came, now) = comings.last();
        if came == signature && admitted(
            after_comings(entries, before, keep_future),
            came,
            now,
            keep_future,
        ).1 {
            now
        } else {
            last_new(entries, before, keep_future, signature, first)
        }
    }
}

/// Times that do not go back, from `first` on.
pub open spec fn rising(first: u64, comings: Seq<(Seq<char>, u64)>) -> bool {
    &&& forall|i: int| 0 <= i < comings.len() ==> first <= (#[trigger] comings[i]).1
    &&& forall|i: int, j: int|
        0 <= i < j < comings.len() ==> (#[trigger] comings[i]).1 <= (#[trigger] comings[j]).1
}

/// The time of the last coming, or `first`.
pub open spec fn last_time(first: u64, comings: Seq<(Seq<char>, u64)>) -> u64 {
    if comings.len() == 0 {
        first
    } else {
        comings.last().1
    }
}

/// The entry of a signature, if it has one, is the one that stands at this time.
spec fn stands_at(entries: Seq<(Seq<char>, u64)>, signature: Seq<char>, since: u64) -> bool {
    forall|i: int| 0 <= i < entries.len() && (#[trigger] entries[i]).0 == signature ==> entries[i].1
        == since
}

/// Of a signature that stands at one time, what comes by is new exactly when four seconds have
/// passed since then.
proof fn lemma_standing(
    entries: Seq<(Seq<char>, u64)>,
    signature: Seq<char>,
    since: u64,
    at: u64,
    now: u64,
    keep_future: bool,
)
    requires
        since <= at <= now,
        stands_at(entries, signature, since),
        at - since < DEDUP_NANOS ==> entries.contains((signature, since)),
    ensures
        admitted(entries, signature, now, keep_future).1 <==> now - since >= DEDUP_NANOS,
{
    let kept = retained(entries, now, keep_future);
    lemma_retained(entries, now, keep_future);
    let e = (signature, since);
    if now - since < DEDUP_NANOS {
        assert(kept.contains(e));
        let k = choose|k: int| 0 <= k < kept.len() && kept[k] == e;
        assert(kept[k].0 == signature);
    } else if knows(kept, signature) {
        let k = choose|k: int| 0 <= k < kept.len() && (#[trigger] kept[k]).0 == signature;
        assert(kept.contains(kept[k]));
        assert(entries.contains(kept[k]));
        let m = choose|m: int| 0 <= m < entries.len() && entries[m] == kept[k];
        assert(entries[m].0 == signature);
        assert(false);
    }
}

/// What else comes by does not change the standing of a signature.
proof fn lemma_standing_stays(
    entries: Seq<(Seq<char>, u64)>,
    signature: Seq<char>,
    since: u64,
    at: u64,
    came: Seq<char>,
    now: u64,
    keep_future: bool,
)
    requires
        since <= at <= now,
        stands_at(entries, signature, since),
        at - since < DEDUP_NANOS ==> entries.contains((signature, since)),
    ensures
        ({
            let (after, new) = admitted(entries, came, now, keep_future);
            let next = if came == signature && new {
                now
            } else {
                since
            };
            &&& stands_at(after, signature, next)
            &&& now - next < DEDUP_NANOS ==> after.contains((signature, next))
        }),
{
    let kept = retained(entries, now, keep_future);
    let (after, new) = admitted(entries, came, now, keep_future);
    lemma_retained(entries, now, keep_future);
    lemma_standing(entries, signature, since, at, now, keep_future);
    assert forall|i: int| 0 <= i < kept.len() && (#[trigger] kept[i]).0
        == signature implies kept[i].1 == since && now - since < DEDUP_NANOS by {
        assert(kept.contains(kept[i]));
        assert(entries.contains(kept[i]));
        let m = choose|m: int| 0 <= m < entries.len() && entries[m] == kept[i];
        assert(entries[m].0 == signature);
    }
    if came == signature && new {
        assert(after.last() == (signature, now));
        assert(after.contains((signature, now)));
        assert forall|i: int| 0 <= i < after.len() && (#[trigger] after[i]).0
            == signature implies after[i].1 == now by {
            if i < kept.len() {
                assert(kept[i].0 == signature);
            }
        }
    } else {
        assert forall|i: int| 0 <= i < after.len() && (#[trigger] after[i]).0
            == signature implies after[i].1 == since by {
            if i < kept.len() {
                assert(kept[i].0 == signature);
            }
        }
        if now - since < DEDUP_NANOS {
            assert(kept.contains((signature, since)));
            let k = choose|k: int| 0 <= k < kept.len() && kept[k] == (signature, since);
            assert(after[k] == (signature, since));
        }
    }
}

proof fn lemma_after_comings(
    entries: Seq<(Seq<char>, u64)>,
    comings: Seq<(Seq<char>, u64)>,
    keep_future: bool,
    signature: Seq<char>,
    first: u64,
)
    requires
        rising(first, comings),
        stands_at(entries, signature, first),
        entries.contains((signature, first)),
    ensures
        ({
            let after = after_comings(entries, comings, keep_future);
            let since = last_new(entries, comings, keep_future, signature, first);
            let at = last_time(first, comings);
            &&& first <= since <= at
            &&& stands_at(after, signature, since)
            &&& at - since < DEDUP_NANOS ==> after.contains((signature, since))
        }),
    decreases comings.len(),
{
    if comings.len() > 0 {
        let front = comings.drop_last();
        assert forall|i: int| 0 <= i < front.len() implies first <= (#[trigger] front[i]).1 by {
            assert(front[i] == comings[i]);
        }
        assert forall|i: int, j: int| 0 <= i < j < front.len() implies (#[trigger] front[i]).1 <= (
        #[trigger] front[j]).1 by {
            assert(front[i] == comings[i] && front[j] == comings[j]);
        }
        lemma_after_comings(entries, front, keep_future, signature, first);
        let (came, now) = comings.last();
        let at = last_time(first, front);
        assert(at <= now) by {
            if front.len() > 0 {
                assert(front.last() == comings[comings.len() - 2]);
            }
        }
        lemma_standing_stays(
            after_comings(entries, front, keep_future),
            signature,
            last_new(entries, front, keep_future, signature, first),
            at,
            came,
            now,
            keep_future,
        );
    }
}

/// What was forwarded is forwarded again exactly when four seconds have passed since it last
/// was, whatever came by in between.
pub proof fn repeats_are_held_back(
    entries: Seq<(Seq<char>, u64)>,
    signature: Seq<char>,
    first: u64,
    between: Seq<(Seq<char>, u64)>,
    now: u64,
    keep_future: bool,
)
    requires
        admitted(entries, signature, first, keep_future).1,
        rising(first, between.push((signature, now))),
    ensures
        ({
            let start = admitted(entries, signature, first, keep_future).0;
            let since = last_new(start, between, keep_future, signature, first);
            &&& first <= since <= now
            &&& admitted(
                after_comings(start, between, keep_future),
                signature,
                now,
                keep_future,
            ).1 <==> now - since >= DEDUP_NANOS
        }),
{
    let all = between.push((signature, now));
    let start = admitted(entries, signature, first, keep_future).0;
    assert(all.last() == (signature, now));
    assert forall|i: int| 0 <= i < between.len() implies first <= (#[trigger] between[i]).1
        && between[i].1 <= now by {
        assert(between[i] == all[i]);
        assert(all[i].1 <= all[between.len() as int].1);
    }
    assert forall|i: int, j: int| 0 <= i < j < between.len() implies (#[trigger] between[i]).1 <= (
    #[trigger] between[j]).1 by {
        assert(between[i] == all[i] && between[j] == all[j]);
    }
    assert(start.last() == (signature, first));
    assert(start.contains((signature, first)));
    assert forall|i: int| 0 <= i < start.len() && (#[trigger] start[i]).0
        == signature implies start[i].1 == first by {
        if i < start.len() - 1 {
            assert(retained(entries, first, keep_future)[i].0 == signature);
        }
    }
    lemma_after_comings(start, between, keep_future, signature, first);
    assert(last_time(first, between) <= now) by {
        assert(all[between.len() as int].1 >= first);
        if between.len() > 0 {
            assert(between.last() == between[between.len() - 1]);
        }
    }
    lemma_standing(
        after_comings(start, between, keep_future),
        signature,
        last_new(start, between, keep_future, signature, first),
        last_time(first, between),
        now,
        keep_future,
    );
}

/// While less than four seconds have passed since something was forwarded, its coming by again,
/// however often, does not put off when it is forwarded next.
pub proof fn held_back_repeats_do_not_count(
    entries: Seq<(Seq<char>, u64)>,
    signature: Seq<char>,
    first: u64,
    between: Seq<(Seq<char>, u64)>,
    keep_future: bool,
)
    requires
        admitted(entries, signature, first, keep_future).1,
        rising(first, between),
        forall|i: int|
            0 <= i < between.len() && (#[trigger] between[i]).0 == signature ==> between[i].1
                - first < DEDUP_NANOS,
    ensures
        last_new(
            admitted(entries, signature, first, keep_future).0,
            between,
            keep_future,
            signature,
            first,
        ) == first,
    decreases between.len(),
{
    if between.len() > 0 {
        let front = between.drop_last();
        let (came, now) = between.last();
        assert forall|i: int| 0 <= i < front.len() implies first <= (#[trigger] front[i]).1 by {
            assert(front[i] == between[i]);
        }
        assert forall|i: int, j: int| 0 <= i < j < front.len() implies (#[trigger] front[i]).1 <= (
        #[trigger] front[j]).1 by {
            assert(front[i] == between[i] && front[j] == between[j]);
        }
        assert forall|i: int| 0 <= i < front.len() && (#[trigger] front[i]).0
            == signature implies front[i].1 - first < DEDUP_NANOS by {
            assert(front[i] == between[i]);
        }
        held_back_repeats_do_not_count(entries, signature, first, front, keep_future);
        if came == signature {
            assert(between[between.len() - 1].0 == signature);
            assert(front.push((signature, now)) =~= between);
            repeats_are_held_back(entries, signature, first, front, now, keep_future);
        }
    }
}

/// What stands between the first two double quotes of a line.
pub open spec fn quoted(line: Seq<char>) -> Option<Seq<char>> {
    match first_at(line, seq!['"']) {
        Some(i) => match first_at(line.skip(i + 1), seq!['"']) {
            Some(j) => Some(line.subrange(i + 1, i + 1 + j)),
            None => None,
        },
        None => None,
    }
}

/// What stands between the first two double quotes of a line.
pub fn extract_quoted(line: &[char]) -> (r: Option<String>)
    ensures
        match r {
            Some(s) => quoted(line@) == Some(s@),
            None => quoted(line@) is None,
        },
{
    let mut quote: Vec<char> = Vec::new();
    quote.push('"');
    assert(quote@ =~= seq!['"']);
    let end: usize = line.len();
    match find_chars(line, quote.as_slice()) {
        Some(i) => {
            assert(i + 1 <= end);
            let rest = part(line, i + 1, end);
            assert(rest@ =~= line@.skip(i + 1));
            match find_chars(rest.as_slice(), quote.as_slice()) {
                Some(j) => {
                    let value = part(rest.as_slice(), 0, j);
                    assert(value@ =~= line@.subrange(i + 1, i + 1 + j));
                    Some(text_of(value.as_slice()))
                },
                None => None,
            }
        },
        None => None,
    }
}

/// Whether a line begins the record of a notification.
pub open spec fn begins_record(line: Seq<char>) -> bool {
    contains(line, "member=Notify"@) || contains(line, "member=\"Notify\""@)
}

/// Whether `s` begins with `front`.
pub open spec fn starts_with(s: Seq<char>, front: Seq<char>) -> bool {
    front.len() <= s.len() && s.take(front.len() as int) == front
}

/// Whether `s` begins with `front`.
pub fn has_front(s: &[char], front: &str) -> (r: bool)
    ensures
        r == starts_with(s@, front@),
{
    let f = chars_of(front);
    if f.len() > s.len() {
        return false;
    }
    let head = part(s, 0, f.len());
    assert(head@ =~= s@.take(f@.len() as int));
    crate::text::same_chars(head.as_slice(), f.as_slice())
}

/// The text argument on a line of a record, if it holds one.
pub open spec fn argument_on(line: Seq<char>) -> Option<Seq<char>> {
    let t = trim_start(line);
    if starts_with(t, "string "@) {
        quoted(t)
    } else {
        None
    }
}

/// What the monitor knows between two lines.
pub struct Monitor {
    pub collecting: bool,
    pub strings: Vec<String>,
    pub recent: Recent,
}

/// What the monitor knows, as seen by the contracts.
#[verifier::ext_equal]
pub struct MonitorView {
    pub collecting: bool,
    pub strings: Seq<Seq<char>>,
    pub recent: Seq<(Seq<char>, u64)>,
}

impl View for Monitor {
    type V = MonitorView;

    open spec fn view(&self) -> MonitorView {
        MonitorView {
            collecting: self.collecting,
            strings: texts(self.strings@),
            recent: self.recent@,
        }
    }
}

/// The notification that the text arguments of a record make: application, icon, title and text
/// come first, in this order.
pub open spec fn event_from(strings: Seq<Seq<char>>) -> ForwardedView {
    ForwardedView {
        source_app: strings[0],
        source_bundle_id: Seq::empty(),
        notification_id: Seq::empty(),
        title: strings[2],
        body: strings[3],
        sender_name: trim(up_to_any(strings[2], seq![':'])),
        category: category_number(category_for(strings[0])) as i32,
    }
}

/// By what a notification is recognised when it comes again.
pub open spec fn signature_of(strings: Seq<Seq<char>>) -> Seq<char> {
    strings[0] + ":"@ + strings[2] + ":"@ + strings[3]
}

impl MonitorView {
    pub open spec fn wf(self) -> bool {
        no_repeats(self.recent)
    }

    /// The monitor after a line, and the notification to forward, if the line completed one.
    pub open spec fn after_line(self, line: Seq<char>, now: u64) -> (
        MonitorView,
        Option<ForwardedView>,
    ) {
        if begins_record(line) {
            (MonitorView { collecting: true, strings: Seq::empty(), ..self }, None)
        } else if !self.collecting {
            (self, None)
        } else {
            let strings = match argument_on(line) {
                Some(value) => self.strings.push(value),
                None => self.strings,
            };
            if strings.len() < 4 {
                (MonitorView { strings, ..self }, None)
            } else {
                let (recent, new) = admitted(self.recent, signature_of(strings), now, false);
                (
                    MonitorView { collecting: false, strings: Seq::empty(), recent },
                    if new {
                        Some(event_from(strings))
                    } else {
                        None
                    },
                )
            }
        }
    }
}

fn sender_in_title(title: &str) -> (r: String)
    ensures
        r@ == trim(up_to_any(title@, seq![':'])),
{
    let mut stops: Vec<char> = Vec::new();
    stops.push(':');
    assert(stops@ =~= seq![':']);
    let chars = chars_of(title);
    let front = take_up_to_any(chars.as_slice(), stops.as_slice());
    let name = trim_chars(front.as_slice());
    text_of(name.as_slice())
}

impl Monitor {
    /// A monitor that has seen no line.
    pub fn new() -> (r: Self)
        ensures
            r@.wf(),
            r@ == (MonitorView {
                collecting: false,
                strings: Seq::empty(),
                recent: Seq::empty(),
            }),
    {
        let r = Monitor { collecting: false, strings: Vec::new(), recent: Recent::new() };
        assert(r@.strings =~= Seq::<Seq<char>>::empty());
        r
    }

    /// Takes a line, and gives the notification to forward, if the line completed one.
    pub fn on_line(&mut self, line: &str, now: u64) -> (r: Option<ForwardedNotification>)
        requires
            old(self)@.wf(),
        ensures
            final(self)@.wf(),
            final(self)@ == old(self)@.after_line(line@, now).0,
            match r {
                Some(event) => old(self)@.after_line(line@, now).1 == Some(event@),
                None => old(self)@.after_line(line@, now).1 is None,
            },
    {
        let chars = chars_of(line);
        if has_text(chars.as_slice(), "member=Notify") || has_text(
            chars.as_slice(),
            "member=\"Notify\"",
        ) {
            self.collecting = true;
            self.strings.clear();
            assert(texts(self.strings@) =~= Seq::<Seq<char>>::empty());
            return None;
        }
        if !self.collecting {
            return None;
        }
        let trimmed = trim_start_chars(chars.as_slice());
        let ghost before = texts(self.strings@);
        if has_front(trimmed.as_slice(), "string ") {
            if let Some(value) = extract_quoted(trimmed.as_slice()) {
                let ghost v = value@;
                self.strings.push(value);
                assert(texts(self.strings@) =~= before.push(v));
            }
        }
        let ghost strings = texts(self.strings@);
        assert(strings == match argument_on(line@) {
            Some(value) => before.push(value),
            None => before,
        });
        if self.strings.len() < 4 {
            return None;
        }
        let source_app = self.strings[0].clone();
        let title = self.strings[2].clone();
        let body = self.strings[3].clone();
        assert(source_app@ == strings[0] && title@ == strings[2] && body@ == strings[3]);
        let mut signature = source_app.clone();
        signature.append(":");
        signature.append(title.as_str());
        signature.append(":");
        signature.append(body.as_str());
        let new = self.recent.take_note(signature, now, false);
        self.collecting = false;
        self.strings.clear();
        assert(texts(self.strings@) =~= Seq::<Seq<char>>::empty());
        if !new {
            return None;
        }
        let category: i32 = map_category(source_app.as_str());
        let sender_name = sender_in_title(title.as_str());
        let event = ForwardedNotification {
            source_app,
            source_bundle_id: String::new(),
            notification_id: String::new(),
            title,
            body,
            sender_name,
            category,
        };
        assert(event@ =~= event_from(strings));
        Some(event)
    }
}

/// The monitor after lines, each at its time, and the notifications to forward.
pub open spec fn read_lines(m: MonitorView, lines: Seq<(Seq<char>, u64)>) -> (
    MonitorView,
    Seq<ForwardedView>,
)
    decreases lines.len(),
{
    if lines.len() == 0 {
        (m, Seq::empty())
    } else {
        let (before, events) = read_lines(m, lines.drop_last());
        let (line, now) = lines.last();
        let (after, event) = before.after_line(line, now);
        (
            after,
            match event {
                Some(e) => events.push(e),
                None => events,
            },
        )
    }
}

/// The text arguments on lines.
pub open spec fn arguments_in(lines: Seq<(Seq<char>, u64)>) -> Seq<Seq<char>>
    decreases lines.len(),
{
    if lines.len() == 0 {
        Seq::empty()
    } else {
        let before = arguments_in(lines.drop_last());
        match argument_on(lines.last().0) {
            Some(value) => before.push(value),
            None => before,
        }
    }
}

/// The lines of one record, up to the fourth text argument.
pub struct Block {
    pub head: (Seq<char>, u64),
    pub body: Seq<(Seq<char>, u64)>,
}

impl Block {
    pub open spec fn wf(self) -> bool {
        &&& begins_record(self.head.0)
        &&& self.body.len() > 0
        &&& forall|i: int| 0 <= i < self.body.len() ==> !begins_record((#[trigger] self.body[i]).0)
        &&& arguments_in(self.body).len() == 4
        &&& argument_on(self.body.last().0) is Some
    }

    pub open spec fn lines(self) -> Seq<(Seq<char>, u64)> {
        seq![self.head] + self.body
    }

    /// The signature of the record's notification, and when it is complete.
    pub open spec fn coming(self) -> (Seq<char>, u64) {
        (signature_of(arguments_in(self.body)), self.body.last().1)
    }
}

/// The lines of records, one behind the other.
pub open spec fn lines_of(blocks: Seq<Block>) -> Seq<(Seq<char>, u64)>
    decreases blocks.len(),
{
    if blocks.len() == 0 {
        Seq::empty()
    } else {
        lines_of(blocks.drop_last()) + blocks.last().lines()
    }
}

/// The notifications of records that are new to a memory.
pub open spec fn new_events(entries: Seq<(Seq<char>, u64)>, blocks: Seq<Block>) -> Seq<ForwardedView>
    decreases blocks.len(),
{
    if blocks.len() == 0 {
        Seq::empty()
    } else {
        let before = blocks.drop_last();
        let events = new_events(entries, before);
        let (signature, now) = blocks.last().coming();
        let known = after_comings(entries, comings_of(before), false);
        if admitted(known, signature, now, false).1 {
            events.push(event_from(arguments_in(blocks.last().body)))
        } else {
            events
        }
    }
}

/// What came by with records.
pub open spec fn comings_of(blocks: Seq<Block>) -> Seq<(Seq<char>, u64)> {
    blocks.map_values(|b: Block| b.coming())
}

proof fn lemma_read_split(m: MonitorView, a: Seq<(Seq<char>, u64)>, b: Seq<(Seq<char>, u64)>)
    ensures
        ({
            let (half, first) = read_lines(m, a);
            let (end, second) = read_lines(half, b);
            read_lines(m, a + b) == (end, first + second)
        }),
    decreases b.len(),
{
    if b.len() == 0 {
        assert(a + b =~= a);
        assert(read_lines(m, a).1 + Seq::<ForwardedView>::empty() =~= read_lines(m, a).1);
    } else {
        lemma_read_split(m, a, b.drop_last());
        assert((a + b).drop_last() =~= a + b.drop_last());
        let (half, first) = read_lines(m, a);
        let (before, events) = read_lines(half, b.drop_last());
        if let Some(e) = before.after_line(b.last().0, b.last().1).1 {
            assert((first + events).push(e) =~= first + events.push(e));
        }
    }
}

proof fn lemma_block_begun(m: MonitorView, block: Block, n: int)
    requires
        block.wf(),
        0 <= n < block.body.len(),
    ensures
        arguments_in(block.body.take(n)).len() < 4,
        read_lines(m, seq![block.head] + block.body.take(n)) == (
            (MonitorView {
                collecting: true,
                strings: arguments_in(block.body.take(n)),
                recent: m.recent,
            }),
            Seq::<ForwardedView>::empty(),
        ),
    decreases n,
{
    let head = seq![block.head];
    let body = block.body.take(n);
    lemma_arguments_grow(block.body, n);
    if n == 0 {
        assert(head + body =~= head);
        assert(head.drop_last() =~= Seq::<(Seq<char>, u64)>::empty());
        assert(read_lines(m, head.drop_last()) == (m, Seq::<ForwardedView>::empty()));
        assert(head.last() == block.head);
        assert(arguments_in(body) =~= Seq::<Seq<char>>::empty());
    } else {
        lemma_block_begun(m, block, n - 1);
        assert(body.drop_last() =~= block.body.take(n - 1));
        assert((head + body).drop_last() =~= head + body.drop_last());
        assert((head + body).last() == block.body[n - 1]);
        assert(!begins_record(block.body[n - 1].0));
    }
}

proof fn lemma_arguments_grow(lines: Seq<(Seq<char>, u64)>, n: int)
    requires
        0 <= n < lines.len(),
        argument_on(lines.last().0) is Some,
    ensures
        arguments_in(lines.take(n)).len() < arguments_in(lines).len(),
    decreases lines.len() - n,
{
    if n == lines.len() - 1 {
        assert(lines.take(n) =~= lines.drop_last());
    } else {
        lemma_arguments_grow(lines, n + 1);
        assert(lines.take(n + 1).drop_last() =~= lines.take(n));
    }
}

/// A record is read as its first four text arguments, whatever stood before it. One that is held
/// back leaves the monitor as one that is forwarded does, but for the memory.
pub proof fn record_is_read(m: MonitorView, block: Block)
    requires
        block.wf(),
    ensures
        ({
            let (signature, now) = block.coming();
            let (recent, new) = admitted(m.recent, signature, now, false);
            read_lines(m, block.lines()) == (
                (MonitorView { collecting: false, strings: Seq::empty(), recent }),
                if new {
                    seq![event_from(arguments_in(block.body))]
                } else {
                    Seq::empty()
                },
            )
        }),
{
    let n = block.body.len() - 1;
    let head = seq![block.head];
    lemma_block_begun(m, block, n);
    assert(block.body.take(n) =~= block.body.drop_last());
    assert(block.lines().drop_last() =~= head + block.body.drop_last());
    assert(block.lines().last() == block.body[n]);
    assert(!begins_record(block.body[n].0));
    let event = event_from(arguments_in(block.body));
    assert(Seq::<ForwardedView>::empty().push(event) =~= seq![event]);
}

/// Records are read one by one: the memory holds what came by with them, and those that were new
/// to it are forwarded, in order.
pub proof fn records_are_read_one_by_one(m: MonitorView, blocks: Seq<Block>)
    requires
        blocks.len() > 0,
        forall|i: int| 0 <= i < blocks.len() ==> (#[trigger] blocks[i]).wf(),
    ensures
        read_lines(m, lines_of(blocks)) == (
            (MonitorView {
                collecting: false,
                strings: Seq::empty(),
                recent: after_comings(m.recent, comings_of(blocks), false),
            }),
            new_events(m.recent, blocks),
        ),
    decreases blocks.len(),
{
    let front = blocks.drop_last();
    let last = blocks.last();
    assert(last == blocks[blocks.len() - 1]);
    assert(comings_of(blocks).drop_last() =~= comings_of(front));
    assert(comings_of(blocks).last() == last.coming());
    lemma_read_split(m, lines_of(front), last.lines());
    let half = read_lines(m, lines_of(front)).0;
    record_is_read(half, last);
    if front.len() > 0 {
        assert forall|i: int| 0 <= i < front.len() implies (#[trigger] front[i]).wf() by {
            assert(front[i] == blocks[i]);
        }
        records_are_read_one_by_one(m, front);
    } else {
        assert(comings_of(front) =~= Seq::<(Seq<char>, u64)>::empty());
    }
    let before = new_events(m.recent, front);
    let event = event_from(arguments_in(last.body));
    assert(before + seq![event] =~= before.push(event));
    assert(before + Seq::<ForwardedView>::empty() =~= before);
}

/// What is forwarded of a record is what stands in it: the application is its first text argument,
/// the title its third and the text its fourth, each as it stands; nothing is said of a bundle or
/// an id, and the category is that of the application.
pub proof fn record_fields_arrive(m: MonitorView, block: Block)
    requires
        block.wf(),
    ensures
        ({
            let a = arguments_in(block.body);
            let events = read_lines(m, block.lines()).1;
            &&& events.len() <= 1
            &&& forall|i: int|
                0 <= i < events.len() ==> {
                    let e = #[trigger] events[i];
                    &&& e.source_app == a[0]
                    &&& e.title == a[2]
                    &&& e.body == a[3]
                    &&& e.source_bundle_id.len() == 0
                    &&& e.notification_id.len() == 0
                    &&& e.category == category_number(category_for(a[0]))
                }
        }),
        m.recent.len() == 0 ==> read_lines(m, block.lines()).1.len() == 1,
        read_lines(m, block.lines()).0.collecting == false,
        read_lines(m, block.lines()).0.strings.len() == 0,
{
    record_is_read(m, block);
    assert(m.recent.len() == 0 ==> m.recent =~= Seq::<(Seq<char>, u64)>::empty());
}

/// The sender is what the title says before its first colon, without the white space around it;
/// a title without a colon is the sender as a whole.
pub proof fn sender_stands_before_the_colon(m: MonitorView, block: Block, colon: int)
    requires
        block.wf(),
        0 <= colon <= arguments_in(block.body)[2].len(),
        forall|k: int|
            0 <= k < colon ==> (#[trigger] arguments_in(block.body)[2][k]) != ':',
        colon < arguments_in(block.body)[2].len() ==> arguments_in(block.body)[2][colon] == ':',
    ensures
        forall|i: int|
            0 <= i < read_lines(m, block.lines()).1.len() ==> (#[trigger] read_lines(
                m,
                block.lines(),
            ).1[i]).sender_name == trim(arguments_in(block.body)[2].take(colon)),
{
    record_is_read(m, block);
    let title = arguments_in(block.body)[2];
    let stops = seq![':'];
    assert(stops.len() == 1 && stops[0] == ':');
    assert forall|k: int| 0 <= k < title.take(colon).len() implies !stops.contains(
        #[trigger] title.take(colon)[k],
    ) by {
        assert(title[k] != ':');
    }
    let rest = title.skip(colon);
    if rest.len() > 0 {
        assert(rest[0] == ':');
        assert(stops.contains(rest[0])) by {
            assert(stops[0] == rest[0]);
        }
    }
    crate::text::value_is_read_whole(title.take(colon), stops, rest);
    assert(title.take(colon) + rest =~= title);
}

/// A text argument is what stands between the quotes behind the word that announces it, with
/// whatever white space in front and whatever behind: the whole of it, and just as it stands.
pub proof fn argument_stands_in_quotes(front: Seq<char>, value: Seq<char>, back: Seq<char>)
    requires
        forall|k: int| 0 <= k < front.len() ==> crate::text::white_space(#[trigger] front[k]),
        forall|k: int| 0 <= k < value.len() ==> (#[trigger] value[k]) != '"',
    ensures
        argument_on(front + "string \""@ + value + seq!['"'] + back) == Some(value),
{
    reveal_strlit("string \"");
    reveal_strlit("string ");
    let word = "string \""@;
    let line = front + word + value + seq!['"'] + back;
    let t = word + value + seq!['"'] + back;
    assert(word.len() == 8 && word[0] == 's' && word[7] == '"');
    lemma_front_cut(front, t);
    assert(front + t =~= line);
    assert(t.take(7) =~= "string "@);
    let quote = seq!['"'];
    assert(t.subrange(7, 8) =~= quote);
    assert(crate::text::occurs_at(t, quote, 7));
    assert forall|j: int| 0 <= j < 7 implies !crate::text::occurs_at(t, quote, j) by {
        assert(t.subrange(j, j + 1)[0] == word[j]);
    }
    crate::text::lemma_first_at_unique(t, quote, 7);
    let rest = t.skip(8);
    let n = value.len() as int;
    assert(rest =~= value + quote + back);
    assert(rest.subrange(n, n + 1) =~= quote);
    assert(crate::text::occurs_at(rest, quote, n));
    assert forall|j: int| 0 <= j < n implies !crate::text::occurs_at(rest, quote, j) by {
        assert(rest.subrange(j, j + 1)[0] == value[j]);
    }
    crate::text::lemma_first_at_unique(rest, quote, n);
    assert(t.subrange(8, 8 + n) =~= value);
}

proof fn lemma_front_cut(front: Seq<char>, t: Seq<char>)
    requires
        forall|k: int| 0 <= k < front.len() ==> crate::text::white_space(#[trigger] front[k]),
        t.len() > 0,
        !crate::text::white_space(t[0]),
    ensures
        trim_start(front + t) == t,
    decreases front.len(),
{
    if front.len() > 0 {
        let rest = front.drop_first();
        assert((front + t)[0] == front[0]);
        assert((front + t).drop_first() =~= rest + t);
        assert forall|k: int| 0 <= k < rest.len() implies crate::text::white_space(
            #[trigger] rest[k],
        ) by {
            assert(front[k + 1] == rest[k]);
        }
        lemma_front_cut(rest, t);
    } else {
        assert(front + t =~= t);
    }
}

/// A line of another kind of argument, or with none, adds none to a record; and the arguments of
/// lines that stand one behind the other do so too.
pub proof fn arguments_come_in_order(
    lines: Seq<(Seq<char>, u64)>,
    more: Seq<(Seq<char>, u64)>,
    line: Seq<char>,
)
    ensures
        arguments_in(lines + more) == arguments_in(lines) + arguments_in(more),
        argument_on(line) is Some ==> starts_with(trim_start(line), "string "@),
    decreases more.len(),
{
    if more.len() == 0 {
        assert(lines + more =~= lines);
        assert(arguments_in(lines) + arguments_in(more) =~= arguments_in(lines));
    } else {
        arguments_come_in_order(lines, more.drop_last(), line);
        assert((lines + more).drop_last() =~= lines + more.drop_last());
        assert((lines + more).last() == more.last());
        assert(arguments_in(lines + more) =~= arguments_in(lines) + arguments_in(more));
    }
}

/// A line that announces a notification begins a record, whatever stands around the announcement,
/// and whatever was read before is no part of it. A line outside of a record does nothing.
pub proof fn announcement_begins_a_record(
    m: MonitorView,
    front: Seq<char>,
    back: Seq<char>,
    line: Seq<char>,
    now: u64,
)
    ensures
        forall|begin: Seq<char>|
            begin == front + "member=Notify"@ + back || begin == front + "member=\"Notify\""@ + back
                ==> {
                let (after, event) = #[trigger] m.after_line(begin, now);
                &&& after.collecting
                &&& after.strings.len() == 0
                &&& after.recent == m.recent
                &&& event is None
            },
        !m.collecting && !contains(line, "member=Notify"@) && !contains(
            line,
            "member=\"Notify\""@,
        ) ==> m.after_line(line, now) == (m, None::<ForwardedView>),
{
    let plain = front + "member=Notify"@ + back;
    let quoted_name = front + "member=\"Notify\""@ + back;
    let n = front.len() as int;
    assert(plain.subrange(n, n + "member=Notify"@.len()) =~= "member=Notify"@);
    assert(crate::text::occurs_at(plain, "member=Notify"@, n));
    assert(quoted_name.subrange(n, n + "member=\"Notify\""@.len()) =~= "member=\"Notify\""@);
    assert(crate::text::occurs_at(quoted_name, "member=\"Notify\""@, n));
}

/// Something that comes by never holds back something else: what would have been new without it
/// is new with it, however close together they come.
pub proof fn others_are_not_held_back(
    entries: Seq<(Seq<char>, u64)>,
    came: Seq<char>,
    first: u64,
    signature: Seq<char>,
    now: u64,
    keep_future: bool,
)
    requires
        came != signature,
        admitted(entries, signature, now, keep_future).1,
    ensures
        admitted(admitted(entries, came, first, keep_future).0, signature, now, keep_future).1,
{
    let kept = retained(entries, first, keep_future);
    let after = admitted(entries, came, first, keep_future).0;
    let seen = retained(after, now, keep_future);
    let alone = retained(entries, now, keep_future);
    lemma_retained(entries, first, keep_future);
    lemma_retained(after, now, keep_future);
    lemma_retained(entries, now, keep_future);
    if knows(seen, signature) {
        let i = choose|i: int| 0 <= i < seen.len() && (#[trigger] seen[i]).0 == signature;
        let e = seen[i];
        assert(seen.contains(e));
        assert(after.contains(e));
        let j = choose|j: int| 0 <= j < after.len() && after[j] == e;
        assert(j < kept.len());
        assert(kept[j] == e);
        assert(kept.contains(e));
        assert(alone.contains(e));
        let k = choose|k: int| 0 <= k < alone.len() && alone[k] == e;
        assert(alone[k].0 == signature);
    }
}

/// What was new and comes again is held back for four seconds, to the nanosecond, and no longer.
pub proof fn repeat_waits_four_seconds(
    entries: Seq<(Seq<char>, u64)>,
    signature: Seq<char>,
    first: u64,
    now: u64,
    keep_future: bool,
)
    requires
        first <= now,
        admitted(entries, signature, first, keep_future).1,
    ensures
        admitted(admitted(entries, signature, first, keep_future).0, signature, now, keep_future).1
            <==> now - first >= 4_000_000_000,
{
    let none = Seq::<(Seq<char>, u64)>::empty();
    let start = admitted(entries, signature, first, keep_future).0;
    repeats_are_held_back(entries, signature, first, none, now, keep_future);
    assert(after_comings(start, none, keep_future) == start);
    assert(last_new(start, none, keep_future, signature, first) == first);
}

/// Two records that differ in the application, in the title or in the text alone never hold each
/// other back: the second is forwarded behind the first wherever it would be without it.
pub proof fn different_records_are_both_forwarded(m: MonitorView, first: Block, second: Block)
    requires
        first.wf(),
        second.wf(),
        ({
            let a = arguments_in(first.body);
            let b = arguments_in(second.body);
            ||| a[0] != b[0] && a[2] == b[2] && a[3] == b[3]
            ||| a[0] == b[0] && a[2] != b[2] && a[3] == b[3]
            ||| a[0] == b[0] && a[2] == b[2] && a[3] != b[3]
        }),
        read_lines(m, second.lines()).1.len() == 1,
    ensures
        read_lines(m, first.lines() + second.lines()).1 == read_lines(m, first.lines()).1
            + read_lines(m, second.lines()).1,
{
    let a = arguments_in(first.body);
    let b = arguments_in(second.body);
    let colon = ":"@;
    let none = Seq::<char>::empty();
    lemma_read_split(m, first.lines(), second.lines());
    record_is_read(m, first);
    record_is_read(m, second);
    let half = read_lines(m, first.lines()).0;
    record_is_read(half, second);
    assert(signature_of(a) != signature_of(b)) by {
        if a[0] != b[0] {
            crate::text::lemma_apart(none, a[0], b[0], colon + a[2] + colon + a[3]);
            assert(none + a[0] + (colon + a[2] + colon + a[3]) =~= signature_of(a));
            assert(none + b[0] + (colon + a[2] + colon + a[3]) =~= signature_of(b));
        } else if a[2] != b[2] {
            crate::text::lemma_apart(a[0] + colon, a[2], b[2], colon + a[3]);
            assert(a[0] + colon + a[2] + (colon + a[3]) =~= signature_of(a));
            assert(a[0] + colon + b[2] + (colon + a[3]) =~= signature_of(b));
        } else {
            crate::text::lemma_apart(a[0] + colon + a[2] + colon, a[3], b[3], none);
            assert(a[0] + colon + a[2] + colon + a[3] + none =~= signature_of(a));
            assert(a[0] + colon + a[2] + colon + b[3] + none =~= signature_of(b));
        }
    }
    others_are_not_held_back(
        m.recent,
        signature_of(a),
        first.coming().1,
        signature_of(b),
        second.coming().1,
        false,
    );
}

/// A record that says again what one said that was forwarded, in application, title and text, is
/// held back in the four seconds behind that, whatever its other arguments are; later it is
/// forwarded again.
pub proof fn same_record_is_forwarded_once(m: MonitorView, first: Block, second: Block)
    requires
        first.wf(),
        second.wf(),
        arguments_in(first.body)[0] == arguments_in(second.body)[0],
        arguments_in(first.body)[2] == arguments_in(second.body)[2],
        arguments_in(first.body)[3] == arguments_in(second.body)[3],
        read_lines(m, first.lines()).1.len() == 1,
        first.body.last().1 <= second.body.last().1,
    ensures
        read_lines(m, first.lines() + second.lines()).1.len() == if second.body.last().1
            - first.body.last().1 < 4_000_000_000 {
            1nat
        } else {
            2
        },
{
    lemma_read_split(m, first.lines(), second.lines());
    record_is_read(m, first);
    let half = read_lines(m, first.lines()).0;
    record_is_read(half, second);
    repeat_waits_four_seconds(
        m.recent,
        signature_of(arguments_in(first.body)),
        first.body.last().1,
        second.body.last().1,
        false,
    );
}

/// A text begins with another exactly where that one stands in front of the rest of it.
pub proof fn beginning_stands_in_front(s: Seq<char>, front: Seq<char>, back: Seq<char>)
    ensures
        starts_with(front + back, front),
        starts_with(s, front) ==> s == front + s.skip(front.len() as int),
        starts_with(s, front) ==> s.len() >= front.len(),
{
    assert((front + back).take(front.len() as int) =~= front);
    if starts_with(s, front) {
        assert(s.take(front.len() as int) + s.skip(front.len() as int) =~= s);
    }
}

} // verus!
