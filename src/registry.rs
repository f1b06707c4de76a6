//! Bookkeeping of running playbacks: unique identifiers and the stop handle
//! of each playback that is still in flight.

use std::sync::mpsc::Sender;
use crate::signal_log::SignalLog;
use vstd::prelude::*;

verus! {

#[verifier::external_type_specification]
#[verifier::external_body]
#[verifier::reject_recursive_types(T)]
pub struct ExSender<T>(Sender<T>);

/// Relies on `Clone for std::sync::mpsc::Sender`: another handle on the same
/// channel.
#[verifier::external_body]
fn clone_sender(sender: &Sender<()>) -> Sender<()> {
    sender.clone()
}

/// The character of a decimal digit.
pub open spec fn digit_char(d: nat) -> char {
    if d == 0 { '0' }
    else if d == 1 { '1' }
    else if d == 2 { '2' }
    else if d == 3 { '3' }
    else if d == 4 { '4' }
    else if d == 5 { '5' }
    else if d == 6 { '6' }
    else if d == 7 { '7' }
    else if d == 8 { '8' }
    else { '9' }
}

/// The decimal notation of `n`, without leading zeros.
pub open spec fn decimal(n: nat) -> Seq<char>
    decreases n,
{
    if n < 10 {
        seq![digit_char(n)]
    } else {
        decimal(n / 10).push(digit_char(n % 10))
    }
}

/// The identifier handed out for the `n`-th playback: `playback_<n>`.
pub open spec fn playback_label(n: nat) -> Seq<char> {
    seq!['p', 'l', 'a', 'y', 'b', 'a', 'c', 'k', '_'] + decimal(n)
}

proof fn lemma_decimal_len(n: nat)
    ensures
        decimal(n).len() >= 1,
        n >= 10 ==> decimal(n).len() >= 2,
    decreases n,
{
    if n >= 10 {
        lemma_decimal_len(n / 10);
    }
}

proof fn lemma_decimal_injective(a: nat, b: nat)
    requires
        decimal(a) == decimal(b),
    ensures
        a == b,
    decreases a,
{
    lemma_decimal_len(a);
    lemma_decimal_len(b);
    if a >= 10 && b >= 10 {
        let da = decimal(a);
        let db = decimal(b);
        assert(da.last() == digit_char(a % 10));
        assert(db.last() == digit_char(b % 10));
        assert(da.drop_last() =~= decimal(a / 10));
        assert(db.drop_last() =~= decimal(b / 10));
        lemma_decimal_injective(a / 10, b / 10);
        assert(a % 10 == b % 10);
    } else if a < 10 && b < 10 {
        assert(decimal(a)[0] == digit_char(a));
        assert(decimal(b)[0] == digit_char(b));
    }
}

/// Distinct counts give distinct identifiers, so every playback's
/// identifier differs from every other one handed out.
pub proof fn lemma_labels_distinct(a: nat, b: nat)
    requires
        a != b,
    ensures
        playback_label(a) != playback_label(b),
{
    if playback_label(a) == playback_label(b) {
        assert(playback_label(a).subrange(9, playback_label(a).len() as int) =~= decimal(a));
        assert(playback_label(b).subrange(9, playback_label(b).len() as int) =~= decimal(b));
        lemma_decimal_injective(a, b);
    }
}

fn digit_str(d: u64) -> (r: &'static str)
    requires
        d < 10,
    ensures
        r@ == seq![digit_char(d as nat)],
{
    proof {
        reveal_strlit("0");
        reveal_strlit("1");
        reveal_strlit("2");
        reveal_strlit("3");
        reveal_strlit("4");
        reveal_strlit("5");
        reveal_strlit("6");
        reveal_strlit("7");
        reveal_strlit("8");
        reveal_strlit("9");
    }
    if d == 0 { "0" }
    else if d == 1 { "1" }
    else if d == 2 { "2" }
    else if d == 3 { "3" }
    else if d == 4 { "4" }
    else if d == 5 { "5" }
    else if d == 6 { "6" }
    else if d == 7 { "7" }
    else if d == 8 { "8" }
    else { "9" }
}

/// Appends the decimal notation of `n` to `s`.
pub fn append_decimal(s: &mut String, n: u64)
    ensures
        final(s)@ == old(s)@ + decimal(n as nat),
    decreases n,
{
    if n >= 10 {
        append_decimal(s, n / 10);
    }
    s.append(digit_str(n % 10));
}

/// Whether the keys of `entries` are pairwise distinct.
pub open spec fn keys_unique(entries: Seq<(String, Sender<()>)>) -> bool {
    forall|i: int, j: int|
        0 <= i < entries.len() && 0 <= j < entries.len() && i != j ==> entries[i].0@ != entries[j].0@
}

/// Whether some entry of `entries` has the key `k`.
pub open spec fn has_key(entries: Seq<(String, Sender<()>)>, k: Seq<char>) -> bool {
    exists|i: int| 0 <= i < entries.len() && entries[i].0@ == k
}

/// The map from identifier to stop handle that `entries` holds.
pub open spec fn entry_map(entries: Seq<(String, Sender<()>)>) -> Map<Seq<char>, Sender<()>> {
    Map::new(
        |k: Seq<char>| has_key(entries, k),
        |k: Seq<char>| entries[choose|i: int| 0 <= i < entries.len() && entries[i].0@ == k].1,
    )
}

proof fn lemma_entry_at(entries: Seq<(String, Sender<()>)>, i: int)
    requires
        keys_unique(entries),
        0 <= i < entries.len(),
    ensures
        entry_map(entries).contains_key(entries[i].0@),
        entry_map(entries)[entries[i].0@] == entries[i].1,
{
    let k = entries[i].0@;
    assert(has_key(entries, k));
    let j = choose|j: int| 0 <= j < entries.len() && entries[j].0@ == k;
    assert(i == j);
}

proof fn lemma_entry_push(entries: Seq<(String, Sender<()>)>, e: (String, Sender<()>))
    requires
        keys_unique(entries),
        !has_key(entries, e.0@),
    ensures
        keys_unique(entries.push(e)),
        entry_map(entries.push(e)) == entry_map(entries).insert(e.0@, e.1),
{
    let n = entries.push(e);
    assert(keys_unique(n)) by {
        assert forall|i: int, j: int|
            0 <= i < n.len() && 0 <= j < n.len() && i != j implies n[i].0@ != n[j].0@ by {
            if i < entries.len() && j < entries.len() {
            } else if i < entries.len() {
                assert(entries[i].0@ != e.0@);
            } else {
                assert(entries[j].0@ != e.0@);
            }
        }
    }
    let m = entry_map(entries).insert(e.0@, e.1);
    assert forall|k: Seq<char>| entry_map(n).contains_key(k) == m.contains_key(k) by {
        if has_key(entries, k) {
            let i = choose|i: int| 0 <= i < entries.len() && entries[i].0@ == k;
            assert(n[i] == entries[i]);
        }
        if has_key(n, k) && k != e.0@ {
            let i = choose|i: int| 0 <= i < n.len() && n[i].0@ == k;
            assert(i < entries.len());
            assert(entries[i] == n[i]);
        }
        if k == e.0@ {
            assert(n[entries.len() as int] == e);
        }
    }
    assert forall|k: Seq<char>| #[trigger] entry_map(n).contains_key(k) implies entry_map(n)[k] == m[k] by {
        let i = choose|i: int| 0 <= i < n.len() && n[i].0@ == k;
        lemma_entry_at(n, i);
        if i < entries.len() {
            assert(n[i] == entries[i]);
            lemma_entry_at(entries, i);
        }
    }
    assert(entry_map(n) =~= m);
}

proof fn lemma_entry_remove(entries: Seq<(String, Sender<()>)>, i: int)
    requires
        keys_unique(entries),
        0 <= i < entries.len(),
    ensures
        keys_unique(entries.remove(i)),
        entry_map(entries.remove(i)) == entry_map(entries).remove(entries[i].0@),
{
    let n = entries.remove(i);
    let gone = entries[i].0@;
    assert forall|a: int| 0 <= a < n.len() implies #[trigger] n[a] == entries[if a < i { a } else { a + 1 }] by {}
    assert(keys_unique(n)) by {
        assert forall|a: int, b: int|
            0 <= a < n.len() && 0 <= b < n.len() && a != b implies n[a].0@ != n[b].0@ by {
            assert(n[a] == entries[if a < i { a } else { a + 1 }]);
            assert(n[b] == entries[if b < i { b } else { b + 1 }]);
        }
    }
    let m = entry_map(entries).remove(gone);
    assert forall|k: Seq<char>| entry_map(n).contains_key(k) == m.contains_key(k) by {
        if has_key(n, k) {
            let a = choose|a: int| 0 <= a < n.len() && n[a].0@ == k;
            let src = if a < i { a } else { a + 1 };
            assert(n[a] == entries[src]);
            assert(src != i);
            assert(k != gone);
        }
        if has_key(entries, k) && k != gone {
            let b = choose|b: int| 0 <= b < entries.len() && entries[b].0@ == k;
            assert(b != i);
            let a = if b < i { b } else { b - 1 };
            assert(n[a] == entries[b]);
        }
    }
    assert forall|k: Seq<char>| #[trigger] entry_map(n).contains_key(k) implies entry_map(n)[k] == m[k] by {
        let a = choose|a: int| 0 <= a < n.len() && n[a].0@ == k;
        let src = if a < i { a } else { a + 1 };
        assert(n[a] == entries[src]);
        lemma_entry_at(n, a);
        lemma_entry_at(entries, src);
    }
    assert(entry_map(n) =~= m);
}

/// Stopping one playback leaves every other playback registered as it was,
/// with the same stop handle, and sends no signal to it: playbacks are
/// stopped one by one. `before`/`after` are the registry's view and
/// `log_before`/`log_after` its signal log around a `signal_stop(stopped)`
/// that returned `found`.
pub proof fn lemma_stop_keeps_others(
    before: Map<Seq<char>, Sender<()>>,
    after: Map<Seq<char>, Sender<()>>,
    log_before: Seq<(Seq<char>, Sender<()>)>,
    log_after: Seq<(Seq<char>, Sender<()>)>,
    found: bool,
    stopped: Seq<char>,
    other: Seq<char>,
)
    requires
        after == before.remove(stopped),
        log_after == if found { log_before.push((stopped, before[stopped])) } else { log_before },
        stopped != other,
    ensures
        after.contains_key(other) == before.contains_key(other),
        before.contains_key(other) ==> after[other] == before[other],
        forall|j: int| log_before.len() <= j < log_after.len() ==> log_after[j].0 != other,
{
}

/// Whether `added` signals each playback of `m` exactly once, through its
/// own stop handle, and nothing else.
pub open spec fn signals_each_once(added: Seq<(Seq<char>, Sender<()>)>, m: Map<Seq<char>, Sender<()>>) -> bool {
    &&& forall|j: int| 0 <= j < added.len() ==> m.contains_key(#[trigger] added[j].0) && m[added[j].0] == added[j].1
    &&& forall|k: Seq<char>| m.contains_key(k) ==> exists|j: int| 0 <= j < added.len() && #[trigger] added[j].0 == k
    &&& forall|i: int, j: int| 0 <= i < added.len() && 0 <= j < added.len() && i != j ==> added[i].0 != added[j].0
}

/// The signals sent to `entries`, in order.
pub open spec fn signals_of(entries: Seq<(String, Sender<()>)>) -> Seq<(Seq<char>, Sender<()>)> {
    entries.map_values(|e: (String, Sender<()>)| (e.0@, e.1))
}

proof fn lemma_signals_of_entries(entries: Seq<(String, Sender<()>)>)
    requires
        keys_unique(entries),
    ensures
        signals_each_once(signals_of(entries), entry_map(entries)),
{
    let added = signals_of(entries);
    let m = entry_map(entries);
    assert forall|j: int| 0 <= j < added.len() implies m.contains_key(#[trigger] added[j].0) && m[added[j].0] == added[j].1 by {
        lemma_entry_at(entries, j);
    }
    assert forall|k: Seq<char>| m.contains_key(k) implies exists|j: int| 0 <= j < added.len() && #[trigger] added[j].0 == k by {
        let i = choose|i: int| 0 <= i < entries.len() && entries[i].0@ == k;
        assert(added[i].0 == k);
    }
}

/// Running playbacks: a counter for fresh identifiers and, for each playback
/// still in flight, the sending end of its stop channel.
///
/// The handles are kept as (identifier, handle) pairs in a vector, with
/// pairwise distinct identifiers; lookups compare identifiers character by
/// character.
pub struct AudioManager {
    stop_senders: Vec<(String, Sender<()>)>,
    playback_counter: u64,
    /// Every stop signal sent so far.
    signals: SignalLog,
}

impl View for AudioManager {
    type V = Map<Seq<char>, Sender<()>>;

    /// The stop handle of each registered playback, by identifier.
    closed spec fn view(&self) -> Map<Seq<char>, Sender<()>> {
        entry_map(self.stop_senders@)
    }
}

impl AudioManager {
    /// At most one stop handle per identifier.
    pub closed spec fn wf(&self) -> bool {
        keys_unique(self.stop_senders@)
    }

    /// The stop signals sent so far, in order: the identifier of each
    /// playback signalled and the handle the signal went through.
    pub closed spec fn signalled(&self) -> Seq<(Seq<char>, Sender<()>)> {
        self.signals@
    }

    /// How many identifiers have been handed out.
    pub closed spec fn issued(&self) -> nat {
        self.playback_counter as nat
    }

    /// An empty registry that has handed out no identifier yet.
    pub fn new() -> (r: Self)
        ensures
            r.wf(),
            r@ == Map::<Seq<char>, Sender<()>>::empty(),
            r.issued() == 0,
            r.signalled() == Seq::<(Seq<char>, Sender<()>)>::empty(),
    {
        let r = AudioManager { stop_senders: Vec::new(), playback_counter: 0, signals: SignalLog::new() };
        assert(r@ =~= Map::<Seq<char>, Sender<()>>::empty());
        r
    }

    /// How many identifiers have been handed out.
    pub fn playback_count(&self) -> (r: u64)
        ensures
            r == self.issued(),
    {
        self.playback_counter
    }

    /// A fresh identifier, `playback_<n>` for the `n`-th call.
    pub fn next_playback_id(&mut self) -> (r: String)
        requires
            old(self).wf(),
            old(self).issued() < u64::MAX,
        ensures
            final(self).wf(),
            final(self)@ == old(self)@,
            final(self).issued() == old(self).issued() + 1,
            final(self).signalled() == old(self).signalled(),
            r@ == playback_label(final(self).issued()),
    {
        self.playback_counter = self.playback_counter + 1;
        let mut s = String::from_str("playback_");
        proof {
            reveal_strlit("playback_");
        }
        append_decimal(&mut s, self.playback_counter);
        s
    }

    fn find(&self, playback_id: &String) -> (r: Option<usize>)
        requires
            self.wf(),
        ensures
            r is None ==> !self@.contains_key(playback_id@),
            r matches Some(i) ==> i < self.stop_senders@.len() && self.stop_senders@[i as int].0@ == playback_id@,
    {
        let mut i: usize = 0;
        while i < self.stop_senders.len()
            invariant
                i <= self.stop_senders@.len(),
                forall|j: int| 0 <= j < i ==> self.stop_senders@[j].0@ != playback_id@,
            decreases self.stop_senders@.len() - i,
        {
            if self.stop_senders[i].0 == *playback_id {
                return Some(i);
            }
            i = i + 1;
        }
        None
    }

    /// Records the stop handle of a playback, replacing any handle that was
    /// registered under the same identifier. No playback is signalled: a
    /// replaced handle is dropped.
    pub fn register_playback(&mut self, playback_id: String, sender: Sender<()>)
        requires
            old(self).wf(),
        ensures
            final(self).wf(),
            final(self)@ == old(self)@.insert(playback_id@, sender),
            final(self).issued() == old(self).issued(),
            final(self).signalled() == old(self).signalled(),
    {
        let ghost key = playback_id@;
        if let Some(i) = self.find(&playback_id) {
            proof {
                lemma_entry_remove(self.stop_senders@, i as int);
            }
            self.stop_senders.remove(i);
        }
        proof {
            assert(!has_key(self.stop_senders@, key));
            lemma_entry_push(self.stop_senders@, (playback_id, sender));
        }
        self.stop_senders.push((playback_id, sender));
        proof {
            assert(self@ =~= old(self)@.insert(key, sender));
        }
    }

    /// Forgets the stop handle of a playback, if there is one, without
    /// signalling it.
    pub fn unregister_playback(&mut self, playback_id: &str)
        requires
            old(self).wf(),
        ensures
            final(self).wf(),
            final(self)@ == old(self)@.remove(playback_id@),
            final(self).issued() == old(self).issued(),
            final(self).signalled() == old(self).signalled(),
    {
        let key = playback_id.to_owned();
        if let Some(i) = self.find(&key) {
            proof {
                lemma_entry_remove(self.stop_senders@, i as int);
            }
            self.stop_senders.remove(i);
        } else {
            assert(old(self)@.remove(playback_id@) =~= old(self)@);
        }
    }

    /// Empties the registry and signals every playback that was in it,
    /// each exactly once.
    pub fn stop_all(&mut self)
        requires
            old(self).wf(),
        ensures
            final(self).wf(),
            final(self)@ == Map::<Seq<char>, Sender<()>>::empty(),
            final(self).issued() == old(self).issued(),
            old(self).signalled().len() <= final(self).signalled().len(),
            final(self).signalled().subrange(0, old(self).signalled().len() as int) == old(self).signalled(),
            signals_each_once(
                final(self).signalled().subrange(old(self).signalled().len() as int, final(self).signalled().len() as int),
                old(self)@,
            ),
    {
        let mut drained: Vec<(String, Sender<()>)> = Vec::new();
        std::mem::swap(&mut drained, &mut self.stop_senders);
        let ghost before = self.signals@;
        let mut i: usize = 0;
        while i < drained.len()
            invariant
                i <= drained@.len(),
                drained@ == old(self).stop_senders@,
                self.stop_senders@.len() == 0,
                self.playback_counter == old(self).playback_counter,
                before == old(self).signals@,
                self.signals@ == before + signals_of(drained@.subrange(0, i as int)),
            decreases drained@.len() - i,
        {
            self.signals.send(&drained[i].0, &drained[i].1);
            proof {
                assert(signals_of(drained@.subrange(0, i + 1)) =~= signals_of(drained@.subrange(0, i as int)).push(
                    (drained@[i as int].0@, drained@[i as int].1),
                ));
            }
            i = i + 1;
        }
        proof {
            assert(drained@.subrange(0, i as int) =~= drained@);
            lemma_signals_of_entries(drained@);
            assert(self.signals@.subrange(0, before.len() as int) =~= before);
            assert(self.signals@.subrange(before.len() as int, self.signals@.len() as int) =~= signals_of(drained@));
        }
        assert(self@ =~= Map::<Seq<char>, Sender<()>>::empty());
    }

    /// Removes the playback's stop handle and signals it, and no other;
    /// `true` iff one was registered.
    pub fn signal_stop(&mut self, playback_id: &str) -> (r: bool)
        requires
            old(self).wf(),
        ensures
            final(self).wf(),
            r == old(self)@.contains_key(playback_id@),
            final(self)@ == old(self)@.remove(playback_id@),
            final(self).issued() == old(self).issued(),
            final(self).signalled() == if r {
                old(self).signalled().push((playback_id@, old(self)@[playback_id@]))
            } else {
                old(self).signalled()
            },
    {
        let key = playback_id.to_owned();
        match self.find(&key) {
            Some(i) => {
                proof {
                    lemma_entry_at(self.stop_senders@, i as int);
                    lemma_entry_remove(self.stop_senders@, i as int);
                }
                let entry = self.stop_senders.remove(i);
                self.signals.send(&entry.0, &entry.1);
                true
            },
            None => {
                assert(old(self)@.remove(playback_id@) =~= old(self)@);
                false
            },
        }
    }

    /// A snapshot of the registered playbacks: each identifier with another
    /// handle on its stop channel. Later changes to the registry do not show
    /// in it.
    pub fn get_stop_senders(&self) -> (r: Vec<(String, Sender<()>)>)
        requires
            self.wf(),
        ensures
            forall|k: Seq<char>| self@.contains_key(k) <==> has_key(r@, k),
            keys_unique(r@),
    {
        let mut r: Vec<(String, Sender<()>)> = Vec::new();
        let mut i: usize = 0;
        while i < self.stop_senders.len()
            invariant
                i <= self.stop_senders@.len(),
                r@.len() == i,
                forall|j: int| 0 <= j < i ==> #[trigger] r@[j].0@ == self.stop_senders@[j].0@,
            decreases self.stop_senders@.len() - i,
        {
            let id = self.stop_senders[i].0.clone();
            let s = clone_sender(&self.stop_senders[i].1);
            r.push((id, s));
            i = i + 1;
        }
        proof {
            assert forall|k: Seq<char>| self@.contains_key(k) <==> has_key(r@, k) by {
                if has_key(r@, k) {
                    let j = choose|j: int| 0 <= j < r@.len() && r@[j].0@ == k;
                    assert(self.stop_senders@[j].0@ == k);
                }
                if self@.contains_key(k) {
                    let j = choose|j: int| 0 <= j < self.stop_senders@.len() && self.stop_senders@[j].0@ == k;
                    assert(r@[j].0@ == k);
                }
            }
        }
        r
    }
}

impl Default for AudioManager {
    fn default() -> (r: Self)
        ensures
            r.wf(),
            r@ == Map::<Seq<char>, Sender<()>>::empty(),
            r.issued() == 0,
            r.signalled() == Seq::<(Seq<char>, Sender<()>)>::empty(),
    {
        Self::new()
    }
}

} // verus!
