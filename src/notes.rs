use vstd::prelude::*;

verus! {

/// A single key press held in the ledger: `id` is the MIDI pitch, `velocity` the MIDI
/// velocity and `age` how many key presses have arrived since this one.
#[derive(Clone, Copy, Debug, PartialEq, Eq, Structural)]
pub struct MidiNote {
    pub id: u8,
    pub velocity: u8,
    pub age: u32,
}

impl MidiNote {
    /// The same note, one key press older. The age stops growing at `u32::MAX`.
    pub open spec fn aged(self) -> MidiNote {
        MidiNote {
            age: if self.age < u32::MAX {
                (self.age + 1) as u32
            } else {
                self.age
            },
            ..self
        }
    }

    /// A note that has just been pressed.
    pub open spec fn fresh(id: u8, velocity: u8) -> MidiNote {
        MidiNote { id, velocity, age: 0 }
    }

    pub fn new(id: u8, velocity: u8) -> (r: MidiNote)
        ensures
            r == MidiNote::fresh(id, velocity),
    {
        MidiNote { id, velocity, age: 0 }
    }

    /// How many key presses have arrived since this note.
    pub fn age(&self) -> (r: u32)
        ensures
            r == self.age,
    {
        self.age
    }
}

/// The ledger after a key press: every held note grows one press older and the new note
/// joins at the end with age 0.
pub open spec fn ledger_on(s: Seq<MidiNote>, id: u8, velocity: u8) -> Seq<MidiNote> {
    s.map_values(|n: MidiNote| n.aged()).push(MidiNote::fresh(id, velocity))
}

/// The ledger after a key release: every note with that pitch leaves.
pub open spec fn ledger_off(s: Seq<MidiNote>, id: u8) -> Seq<MidiNote> {
    s.filter(other_pitch(id))
}

/// Holds of the notes whose pitch is not `id`.
pub open spec fn other_pitch(id: u8) -> spec_fn(MidiNote) -> bool {
    |n: MidiNote| n.id != id
}

/// Filtering a sequence that grew by one element at the end.
pub proof fn lemma_filter_push<A>(s: Seq<A>, x: A, keep: spec_fn(A) -> bool)
    ensures
        s.push(x).filter(keep) == if keep(x) {
            s.filter(keep).push(x)
        } else {
            s.filter(keep)
        },
{
    reveal(Seq::filter);
    assert(s.push(x).drop_last() =~= s);
}

/// The newest note of the ledger: the first one, in order of arrival, whose age is smallest.
pub open spec fn latest_of(s: Seq<MidiNote>) -> Option<MidiNote>
    decreases s.len(),
{
    if s.len() == 0 {
        None
    } else {
        match latest_of(s.drop_last()) {
            None => Some(s.last()),
            Some(m) => if s.last().age < m.age {
                Some(s.last())
            } else {
                Some(m)
            },
        }
    }
}

/// What `latest_of` picks: a note of the ledger that no other note is younger than.
pub proof fn lemma_latest_is_youngest(s: Seq<MidiNote>)
    ensures
        s.len() == 0 <==> latest_of(s) is None,
        latest_of(s) matches Some(m) ==> s.contains(m) && forall|j: int|
            0 <= j < s.len() ==> m.age <= #[trigger] s[j].age,
    decreases s.len(),
{
    if s.len() > 0 {
        let p = s.drop_last();
        lemma_latest_is_youngest(p);
        match latest_of(p) {
            None => {
                assert(s[s.len() - 1] == s.last());
            },
            Some(m) => {
                let k = choose|k: int| 0 <= k < p.len() && p[k] == m;
                assert(s[k] == m);
                assert(s[s.len() - 1] == s.last());
                assert forall|j: int| 0 <= j < s.len() implies latest_of(s).unwrap().age
                    <= #[trigger] s[j].age by {
                    if j < s.len() - 1 {
                        assert(s[j] == p[j]);
                    }
                }
            },
        }
    }
}

/// A key press makes the pressed note the newest one of the ledger.
pub proof fn lemma_press_is_latest(s: Seq<MidiNote>, id: u8, velocity: u8)
    ensures
        latest_of(ledger_on(s, id, velocity)) == Some(MidiNote::fresh(id, velocity)),
{
    let t = ledger_on(s, id, velocity);
    let p = s.map_values(|n: MidiNote| n.aged());
    assert(t.drop_last() =~= p);
    lemma_latest_is_youngest(p);
    if let Some(m) = latest_of(p) {
        let k = choose|k: int| 0 <= k < p.len() && p[k] == m;
        assert(p[k] == s[k].aged());
    }
}

/// Releasing the newest key makes the key pressed just before it the newest again, if
/// it has another pitch: it is then one press old.
pub proof fn lemma_release_newest_returns_previous(
    s: Seq<MidiNote>,
    a: u8,
    va: u8,
    b: u8,
    vb: u8,
)
    requires
        a != b,
    ensures
        latest_of(ledger_off(ledger_on(ledger_on(s, a, va), b, vb), b)) == Some(
            MidiNote { id: a, velocity: va, age: 1 },
        ),
{
    broadcast use vstd::seq_lib::group_filter_ensures;

    let s1 = ledger_on(s, a, va);
    let s2 = ledger_on(s1, b, vb);
    let older = s.map_values(|n: MidiNote| n.aged()).map_values(|n: MidiNote| n.aged());
    let pa = MidiNote { id: a, velocity: va, age: 1 };
    assert(s2 =~= older + seq![pa, MidiNote::fresh(b, vb)]);
    lemma_filter_push(older.push(pa), MidiNote::fresh(b, vb), other_pitch(b));
    lemma_filter_push(older, pa, other_pitch(b));
    assert(older + seq![pa, MidiNote::fresh(b, vb)] =~= older.push(pa).push(MidiNote::fresh(b, vb)));
    let kept = older.filter(other_pitch(b));
    assert(ledger_off(s2, b) == kept.push(pa));
    assert(kept.push(pa).drop_last() =~= kept);
    lemma_latest_is_youngest(kept);
    if let Some(m) = latest_of(kept) {
        assert(kept.contains(m));
        older.lemma_filter_contains_rev(other_pitch(b), m);
        let k = choose|k: int| 0 <= k < older.len() && older[k] == m;
        assert(older[k] == s[k].aged().aged());
    }
}

/// The ledger is in order of arrival: each note is strictly older than every note after it.
pub open spec fn ordered_by_age(s: Seq<MidiNote>) -> bool {
    forall|i: int, j: int| 0 <= i < j < s.len() ==> #[trigger] s[i].age > #[trigger] s[j].age
}

/// Filtering keeps the ledger in order of arrival.
proof fn lemma_filter_keeps_order(s: Seq<MidiNote>, keep: spec_fn(MidiNote) -> bool)
    requires
        ordered_by_age(s),
    ensures
        ordered_by_age(s.filter(keep)),
    decreases s.len(),
{
    if s.len() > 0 {
        let p = s.drop_last();
        assert(ordered_by_age(p)) by {
            assert forall|i: int, j: int| 0 <= i < j < p.len() implies #[trigger] p[i].age
                > #[trigger] p[j].age by {
                assert(p[i] == s[i] && p[j] == s[j]);
            }
        }
        lemma_filter_keeps_order(p, keep);
        assert(s =~= p.push(s.last()));
        lemma_filter_push(p, s.last(), keep);
        let f = p.filter(keep);
        assert forall|i: int| 0 <= i < f.len() implies #[trigger] f[i].age > s.last().age by {
            assert(f.contains(f[i]));
            p.lemma_filter_contains_rev(keep, f[i]);
            let k = choose|k: int| 0 <= k < p.len() && p[k] == f[i];
            assert(s[k] == p[k]);
            assert(s[s.len() - 1] == s.last());
        }
        if keep(s.last()) {
            let g = f.push(s.last());
            assert forall|i: int, j: int| 0 <= i < j < g.len() implies #[trigger] g[i].age
                > #[trigger] g[j].age by {
                if j == g.len() - 1 {
                    assert(g[i] == f[i]);
                } else {
                    assert(g[i] == f[i] && g[j] == f[j]);
                }
            }
        }
    }
}

/// In an ordered ledger the newest note is the last to have arrived.
pub proof fn lemma_latest_is_last(s: Seq<MidiNote>)
    requires
        ordered_by_age(s),
        s.len() > 0,
    ensures
        latest_of(s) == Some(s.last()),
{
    let p = s.drop_last();
    lemma_latest_is_youngest(p);
    if let Some(m) = latest_of(p) {
        let k = choose|k: int| 0 <= k < p.len() && p[k] == m;
        assert(s[k] == m);
        assert(s[s.len() - 1] == s.last());
    }
}

/// Key presses and releases keep the ledger in order of arrival, as long as no age has
/// reached `u32::MAX`; its newest note is then always the last one.
pub proof fn lemma_ledger_stays_ordered(s: Seq<MidiNote>, id: u8, velocity: u8)
    requires
        ordered_by_age(s),
        forall|i: int| 0 <= i < s.len() ==> #[trigger] s[i].age < u32::MAX,
    ensures
        ordered_by_age(ledger_on(s, id, velocity)),
        ordered_by_age(ledger_off(s, id)),
        latest_of(ledger_on(s, id, velocity)) == Some(MidiNote::fresh(id, velocity)),
        ledger_off(s, id).len() > 0 ==> latest_of(ledger_off(s, id)) == Some(
            ledger_off(s, id).last(),
        ),
{
    let t = ledger_on(s, id, velocity);
    assert forall|i: int, j: int| 0 <= i < j < t.len() implies #[trigger] t[i].age
        > #[trigger] t[j].age by {
        if j < t.len() - 1 {
            assert(t[i] == s[i].aged() && t[j] == s[j].aged());
        } else {
            assert(t[i] == s[i].aged());
        }
    }
    lemma_filter_keeps_order(s, other_pitch(id));
    lemma_latest_is_last(t);
    if ledger_off(s, id).len() > 0 {
        lemma_latest_is_last(ledger_off(s, id));
    }
}

/// The ledger of currently pressed keys, in order of arrival.
pub struct Notes {
    pub notes: Vec<MidiNote>,
}

impl Notes {
    pub fn new() -> (r: Notes)
        ensures
            r.notes@ == Seq::<MidiNote>::empty(),
    {
        Notes { notes: Vec::with_capacity(128) }
    }

    /// Records a key press: every held note grows one press older, and the new note is
    /// appended with age 0.
    pub fn note_on(&mut self, id: u8, velocity: u8)
        ensures
            final(self).notes@ == ledger_on(old(self).notes@, id, velocity),
    {
        let n: usize = self.notes.len();
        let mut i: usize = 0;
        while i < n
            invariant
                n == old(self).notes@.len(),
                i <= n,
                self.notes@.len() == n,
                forall|j: int| 0 <= j < i ==> self.notes@[j] == #[trigger] old(self).notes@[j].aged(),
                forall|j: int| i <= j < n ==> self.notes@[j] == old(self).notes@[j],
            decreases n - i,
        {
            let mut note = self.notes[i];
            if note.age < u32::MAX {
                note.age = note.age + 1;
            }
            self.notes.set(i, note);
            i += 1;
        }
        self.notes.push(MidiNote::new(id, velocity));
        assert(self.notes@ =~= ledger_on(old(self).notes@, id, velocity));
    }

    /// Records a key release: every note with this pitch leaves the ledger.
    pub fn note_off(&mut self, id: u8)
        ensures
            final(self).notes@ == ledger_off(old(self).notes@, id),
    {
        let ghost s = old(self).notes@;
        let mut i: usize = 0;
        let mut k: usize = 0;
        let n: usize = self.notes.len();
        while k < n
            invariant
                n == s.len(),
                i <= k <= s.len(),
                self.notes@ == s.take(k as int).filter(other_pitch(id)) + s.skip(k as int),
                i == s.take(k as int).filter(other_pitch(id)).len(),
            decreases s.len() - k,
        {
            let ghost before = s.take(k as int).filter(other_pitch(id));
            proof {
                assert(s.take(k + 1) =~= s.take(k as int).push(s[k as int]));
                lemma_filter_push(s.take(k as int), s[k as int], other_pitch(id));
                assert(self.notes@[i as int] == s[k as int]);
                assert(s.skip(k as int) =~= seq![s[k as int]] + s.skip(k + 1));
            }
            if self.notes[i].id == id {
                self.notes.remove(i);
                proof {
                    assert(s.take(k + 1).filter(other_pitch(id)) == before);
                    assert(self.notes@ =~= s.take(k + 1).filter(other_pitch(id)) + s.skip(k + 1));
                }
            } else {
                proof {
                    assert(s.take(k + 1).filter(other_pitch(id)) == before.push(s[k as int]));
                    assert(self.notes@ =~= s.take(k + 1).filter(other_pitch(id)) + s.skip(k + 1));
                }
                i += 1;
            }
            k += 1;
        }
        assert(s.take(s.len() as int) =~= s);
        assert(s.skip(s.len() as int) =~= Seq::<MidiNote>::empty());
        assert(self.notes@ =~= ledger_off(s, id));
    }

    /// The newest held note: the first one, in order of arrival, whose age is smallest.
    pub fn latest(&self) -> (r: Option<MidiNote>)
        ensures
            r == latest_of(self.notes@),
    {
        let mut best: Option<MidiNote> = None;
        let mut i: usize = 0;
        while i < self.notes.len()
            invariant
                i <= self.notes@.len(),
                best == latest_of(self.notes@.take(i as int)),
            decreases self.notes@.len() - i,
        {
            proof {
                assert(self.notes@.take(i + 1).drop_last() =~= self.notes@.take(i as int));
            }
            let note = self.notes[i];
            best = match best {
                None => Some(note),
                Some(m) => if note.age < m.age {
                    Some(note)
                } else {
                    Some(m)
                },
            };
            i += 1;
        }
        assert(self.notes@.take(i as int) =~= self.notes@);
        best
    }
}

} // verus!
