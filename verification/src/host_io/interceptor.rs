//! Who is told of messages before they go to the general event channel.

use crate::text::same_text;
use vstd::prelude::*;

verus! {

/// The number of an interceptor. Whoever registers one keeps the callback
/// that belongs to it.
#[derive(Debug, Clone, Copy, PartialEq, Eq, Hash, Structural)]
pub struct InterceptorId(pub u64);

/// An interceptor: its number, and the message and object it is for.
#[derive(Debug)]
pub struct InterceptorEntry {
    pub id: InterceptorId,
    pub msg_name: String,
    pub oid: Option<u32>,
}

/// Model of [`InterceptorEntry`].
#[verifier::ext_equal]
pub struct InterceptorView {
    pub id: InterceptorId,
    pub msg_name: Seq<char>,
    pub oid: Option<u32>,
}

impl View for InterceptorEntry {
    type V = InterceptorView;

    open spec fn view(&self) -> InterceptorView {
        InterceptorView { id: self.id, msg_name: self.msg_name@, oid: self.oid }
    }
}

/// All interceptors, in the order of their registration.
#[derive(Debug)]
pub struct InterceptorTable {
    entries: Vec<InterceptorEntry>,
    next_id: u64,
}

/// Model of [`InterceptorTable`].
#[verifier::ext_equal]
pub struct InterceptorTableView {
    pub entries: Seq<InterceptorView>,
    pub next_id: u64,
}

/// Interceptors, as models.
pub open spec fn interceptor_views(v: Seq<InterceptorEntry>) -> Seq<InterceptorView> {
    Seq::new(v.len(), |i: int| v[i]@)
}

impl View for InterceptorTable {
    type V = InterceptorTableView;

    closed spec fn view(&self) -> InterceptorTableView {
        InterceptorTableView {
            entries: interceptor_views(self.entries@),
            next_id: self.next_id,
        }
    }
}

/// No interceptors. Numbers start at one.
pub open spec fn no_interceptors() -> InterceptorTableView {
    InterceptorTableView { entries: Seq::empty(), next_id: 1 }
}

/// The table with one interceptor more.
pub open spec fn interceptor_added(
    t: InterceptorTableView,
    msg_name: Seq<char>,
    oid: Option<u32>,
) -> InterceptorTableView {
    InterceptorTableView {
        entries: t.entries.push(
            InterceptorView { id: InterceptorId(t.next_id), msg_name, oid },
        ),
        next_id: ((t.next_id + 1) % 0x1_0000_0000_0000_0000) as u64,
    }
}

/// Interceptors without those of one number.
pub open spec fn without_id(s: Seq<InterceptorView>, id: InterceptorId) -> Seq<InterceptorView>
    decreases s.len(),
{
    if s.len() == 0 {
        Seq::empty()
    } else if s.last().id == id {
        without_id(s.drop_last(), id)
    } else {
        without_id(s.drop_last(), id).push(s.last())
    }
}

/// The numbers of the interceptors of a message and object, in order.
pub open spec fn matching(s: Seq<InterceptorView>, name: Seq<char>, oid: Option<u32>) -> Seq<
    InterceptorId,
>
    decreases s.len(),
{
    if s.len() == 0 {
        Seq::empty()
    } else if s.last().msg_name == name && s.last().oid == oid {
        matching(s.drop_last(), name, oid).push(s.last().id)
    } else {
        matching(s.drop_last(), name, oid)
    }
}

/// An interceptor that was unregistered is told of nothing any more.
pub proof fn law_unregistered_is_silent(
    s: Seq<InterceptorView>,
    id: InterceptorId,
    name: Seq<char>,
    oid: Option<u32>,
)
    ensures
        !matching(without_id(s, id), name, oid).contains(id),
    decreases s.len(),
{
    if s.len() > 0 {
        let t = s.drop_last();
        law_unregistered_is_silent(t, id, name, oid);
        if s.last().id != id {
            let kept = without_id(t, id);
            let all = kept.push(s.last());
            assert(all.drop_last() =~= kept);
            assert(all.last() == s.last());
            let m = matching(kept, name, oid);
            let n = matching(all, name, oid);
            if n.contains(id) {
                let i = n.index_of(id);
                assert(n[i] == id);
                if i < m.len() {
                    assert(m[i] == id);
                }
            }
        }
    }
}

/// Whether the numbers go up and the next one has not been given out, so that
/// each stands at most once.
pub open spec fn numbered(t: InterceptorTableView) -> bool {
    &&& forall|i: int, j: int|
        0 <= i < j < t.entries.len() ==> (#[trigger] t.entries[i]).id.0 < (
        #[trigger] t.entries[j]).id.0
    &&& forall|i: int| 0 <= i < t.entries.len() ==> (#[trigger] t.entries[i]).id.0 < t.next_id
}

/// Whether a number stands among interceptors.
pub open spec fn has_id(s: Seq<InterceptorView>, id: InterceptorId) -> bool {
    exists|i: int| 0 <= i < s.len() && (#[trigger] s[i]).id == id
}

/// The table without an interceptor.
pub open spec fn interceptor_removed(
    t: InterceptorTableView,
    id: InterceptorId,
) -> InterceptorTableView {
    InterceptorTableView { entries: without_id(t.entries, id), ..t }
}

/// Numbers without one of them.
pub open spec fn other_ids(s: Seq<InterceptorId>, id: InterceptorId) -> Seq<InterceptorId>
    decreases s.len(),
{
    if s.len() == 0 {
        Seq::empty()
    } else if s.last() == id {
        other_ids(s.drop_last(), id)
    } else {
        other_ids(s.drop_last(), id).push(s.last())
    }
}

/// Where the number does not stand, nothing is taken out.
proof fn lemma_without_absent(s: Seq<InterceptorView>, id: InterceptorId)
    requires
        !has_id(s, id),
    ensures
        without_id(s, id) == s,
    decreases s.len(),
{
    if s.len() > 0 {
        let t = s.drop_last();
        assert(s[s.len() - 1] == s.last());
        assert(!has_id(t, id)) by {
            if has_id(t, id) {
                let i = choose|i: int| 0 <= i < t.len() && (#[trigger] t[i]).id == id;
                assert(s[i].id == id);
            }
        }
        lemma_without_absent(t, id);
        assert(t.push(s.last()) =~= s);
    }
}

/// What is left was there, and does not have the number.
proof fn lemma_without_parts(s: Seq<InterceptorView>, id: InterceptorId)
    ensures
        !has_id(without_id(s, id), id),
        forall|k: int|
            0 <= k < without_id(s, id).len() ==> exists|i: int|
                0 <= i < s.len() && s[i] == #[trigger] without_id(s, id)[k],
    decreases s.len(),
{
    if s.len() > 0 {
        let t = s.drop_last();
        lemma_without_parts(t, id);
        let left = without_id(s, id);
        assert forall|k: int| 0 <= k < left.len() implies left[k].id != id && exists|i: int|
            0 <= i < s.len() && s[i] == #[trigger] left[k] by {
            if k < without_id(t, id).len() {
                assert(left[k] == without_id(t, id)[k]);
                let i = choose|i: int| 0 <= i < t.len() && t[i] == without_id(t, id)[k];
                assert(s[i] == left[k]);
            } else {
                assert(left[k] == s.last());
                assert(s[s.len() - 1] == left[k]);
            }
        }
    }
}

/// Each number stands at most once: in a fresh table, after a registration,
/// as long as numbers are left, and after an interceptor was taken out.
pub proof fn law_numbers_stand_once(
    t: InterceptorTableView,
    msg_name: Seq<char>,
    oid: Option<u32>,
    id: InterceptorId,
)
    requires
        numbered(t),
    ensures
        numbered(no_interceptors()),
        t.next_id < u64::MAX ==> numbered(interceptor_added(t, msg_name, oid)),
        numbered(interceptor_removed(t, id)),
    decreases t.entries.len(),
{
    if t.entries.len() > 0 {
        let s = InterceptorTableView { entries: t.entries.drop_last(), ..t };
        law_numbers_stand_once(s, msg_name, oid, id);
        let left = without_id(t.entries, id);
        let kept = without_id(s.entries, id);
        if t.entries.last().id != id {
            lemma_without_parts(s.entries, id);
            assert forall|i: int, j: int| 0 <= i < j < left.len() implies (
            #[trigger] left[i]).id.0 < (#[trigger] left[j]).id.0 by {
                assert(left[i] == kept[i]);
                if j < kept.len() {
                    assert(left[j] == kept[j]);
                } else {
                    let a = choose|a: int| 0 <= a < s.entries.len() && s.entries[a] == kept[i];
                    assert(t.entries[a].id.0 < t.entries[t.entries.len() - 1].id.0);
                }
            }
            assert forall|i: int| 0 <= i < left.len() implies (#[trigger] left[i]).id.0
                < t.next_id by {
                if i < kept.len() {
                    assert(left[i] == kept[i]);
                }
            }
        }
    }
}

/// Taking an interceptor out takes exactly one out, if its number stands in
/// the table, and none else; doing so once more changes nothing.
pub proof fn law_unregister_takes_one(t: InterceptorTableView, id: InterceptorId)
    requires
        numbered(t),
    ensures
        without_id(t.entries, id).len() == t.entries.len() - if has_id(t.entries, id) {
            1int
        } else {
            0int
        },
        !has_id(without_id(t.entries, id), id),
        interceptor_removed(interceptor_removed(t, id), id) == interceptor_removed(t, id),
    decreases t.entries.len(),
{
    lemma_without_parts(t.entries, id);
    lemma_without_absent(without_id(t.entries, id), id);
    if has_id(t.entries, id) {
        let s = InterceptorTableView { entries: t.entries.drop_last(), ..t };
        if t.entries.last().id == id {
            assert(!has_id(s.entries, id)) by {
                if has_id(s.entries, id) {
                    let i = choose|i: int|
                        0 <= i < s.entries.len() && (#[trigger] s.entries[i]).id == id;
                    assert(t.entries[i].id.0 < t.entries[t.entries.len() - 1].id.0);
                }
            }
            lemma_without_absent(s.entries, id);
        } else {
            let i = choose|i: int| 0 <= i < t.entries.len() && (#[trigger] t.entries[i]).id == id;
            assert(s.entries[i].id == id);
            law_unregister_takes_one(s, id);
        }
    } else {
        lemma_without_absent(t.entries, id);
    }
}

/// Who else is registered is told as before, in the same order, also of the
/// same message and object.
pub proof fn law_others_still_told(
    s: Seq<InterceptorView>,
    id: InterceptorId,
    name: Seq<char>,
    oid: Option<u32>,
)
    ensures
        matching(without_id(s, id), name, oid) == other_ids(matching(s, name, oid), id),
    decreases s.len(),
{
    if s.len() > 0 {
        let t = s.drop_last();
        let x = s.last();
        law_others_still_told(t, id, name, oid);
        if x.msg_name == name && x.oid == oid {
            let m = matching(t, name, oid);
            assert(m.push(x.id).drop_last() =~= m);
            assert(m.push(x.id).last() == x.id);
        }
        if x.id != id {
            let kept = without_id(t, id);
            assert(kept.push(x).drop_last() =~= kept);
            assert(kept.push(x).last() == x);
        }
    }
}

impl InterceptorTable {
    /// No interceptors.
    pub fn new() -> (t: Self)
        ensures
            t@ == no_interceptors(),
            numbered(t@),
    {
        let t = InterceptorTable { entries: Vec::new(), next_id: 1 };
        proof {
            assert(t@ =~= no_interceptors());
        }
        t
    }

    /// Registers an interceptor for a message and object.
    pub fn register(&mut self, msg_name: String, oid: Option<u32>) -> (id: InterceptorId)
        ensures
            id == InterceptorId(old(self)@.next_id),
            final(self)@ == interceptor_added(old(self)@, msg_name@, oid),
            numbered(old(self)@) && old(self)@.next_id < u64::MAX ==> numbered(final(self)@),
    {
        let id: InterceptorId = InterceptorId(self.next_id);
        self.next_id = self.next_id.wrapping_add(1);
        let e = InterceptorEntry { id, msg_name, oid };
        let ghost ev = e@;
        let ghost was = interceptor_views(self.entries@);
        self.entries.push(e);
        proof {
            assert(interceptor_views(self.entries@) =~= was.push(ev));
            if numbered(old(self)@) {
                law_numbers_stand_once(old(self)@, msg_name@, oid, id);
            }
        }
        id
    }

    /// Takes an interceptor out.
    pub fn unregister(&mut self, id: InterceptorId)
        ensures
            final(self)@ == interceptor_removed(old(self)@, id),
            numbered(old(self)@) ==> numbered(final(self)@) && final(self)@.entries.len()
                == old(self)@.entries.len() - if has_id(old(self)@.entries, id) {
                1int
            } else {
                0int
            },
    {
        let ghost all = self@.entries;
        let ghost mut k: int = 0;
        let mut i: usize = 0;
        proof {
            assert(all.take(0) =~= Seq::<InterceptorView>::empty());
            assert(self@.entries =~= without_id(all.take(0), id) + all.skip(0));
        }
        while i < self.entries.len()
            invariant
                0 <= k <= all.len(),
                self@.next_id == old(self)@.next_id,
                i == without_id(all.take(k), id).len(),
                self@.entries == without_id(all.take(k), id) + all.skip(k),
            decreases all.len() - k,
        {
            let ghost kept = without_id(all.take(k), id);
            let ghost was = self@.entries;
            proof {
                assert(was.len() == self.entries@.len());
                assert(all.skip(k).len() == all.len() - k);
                assert(was[i as int] == self.entries@[i as int]@);
                assert(was[i as int] == all[k]);
                assert(all.take(k + 1).drop_last() =~= all.take(k));
                assert(all.take(k + 1).last() == all[k]);
            }
            if self.entries[i].id == id {
                self.entries.remove(i);
                proof {
                    assert(self@.entries =~= was.remove(i as int));
                    assert(self@.entries =~= kept + all.skip(k + 1));
                }
            } else {
                proof {
                    assert(self@.entries =~= kept.push(all[k]) + all.skip(k + 1));
                }
                i += 1;
            }
            proof {
                k = k + 1;
            }
        }
        proof {
            assert(self@.entries.len() == self.entries@.len());
            assert(all.skip(k).len() == all.len() - k);
            assert(k == all.len());
            assert(all.take(k) =~= all);
            assert(self@.entries =~= without_id(all, id));
            if numbered(old(self)@) {
                law_numbers_stand_once(old(self)@, Seq::empty(), None, id);
                law_unregister_takes_one(old(self)@, id);
            }
        }
    }

    /// How many interceptors there are.
    pub fn entry_count(&self) -> (n: usize)
        ensures
            n == self@.entries.len(),
    {
        self.entries.len()
    }

    /// The interceptors to tell of a message, in the order of their
    /// registration.
    pub fn dispatch(&self, msg_name: &str, oid: Option<u32>) -> (r: Vec<InterceptorId>)
        ensures
            r@ == matching(self@.entries, msg_name@, oid),
    {
        let ghost all = self@.entries;
        let mut out: Vec<InterceptorId> = Vec::new();
        let mut i: usize = 0;
        while i < self.entries.len()
            invariant
                i <= self.entries@.len(),
                all == self@.entries,
                out@ == matching(all.take(i as int), msg_name@, oid),
            decreases self.entries@.len() - i,
        {
            proof {
                assert(all[i as int] == self.entries@[i as int]@);
                assert(all.take(i + 1).drop_last() =~= all.take(i as int));
                assert(all.take(i + 1).last() == all[i as int]);
            }
            let same_oid: bool = match (self.entries[i].oid, oid) {
                (Some(a), Some(b)) => a == b,
                (None, None) => true,
                _ => false,
            };
            if same_oid && same_text(self.entries[i].msg_name.as_str(), msg_name) {
                out.push(self.entries[i].id);
            }
            i += 1;
        }
        proof {
            assert(all.take(all.len() as int) =~= all);
        }
        out
    }
}

/// Whoever registers is told of the message and object from then on, after those
/// that were registered before, and of no other; who is told of other messages
/// does not change.
pub proof fn law_registered_is_told(
    t: InterceptorTableView,
    msg_name: Seq<char>,
    oid: Option<u32>,
    name: Seq<char>,
    o: Option<u32>,
)
    ensures
        ({
            let before = matching(t.entries, name, o);
            let after = matching(interceptor_added(t, msg_name, oid).entries, name, o);
            &&& name == msg_name && o == oid ==> after == before.push(InterceptorId(t.next_id))
            &&& name != msg_name || o != oid ==> after == before
        }),
{
    let all = interceptor_added(t, msg_name, oid).entries;
    assert(all.drop_last() =~= t.entries);
}

/// Just those are told whose message and object it is.
pub proof fn law_told_are_those_meant(
    s: Seq<InterceptorView>,
    name: Seq<char>,
    oid: Option<u32>,
    id: InterceptorId,
)
    ensures
        matching(s, name, oid).contains(id) <==> exists|i: int|
            0 <= i < s.len() && (#[trigger] s[i]).id == id && s[i].msg_name == name && s[i].oid
                == oid,
    decreases s.len(),
{
    if s.len() > 0 {
        let t = s.drop_last();
        let x = s.last();
        let m = matching(t, name, oid);
        let n = matching(s, name, oid);
        law_told_are_those_meant(t, name, oid, id);
        assert(s[s.len() - 1] == x);
        if m.contains(id) {
            let k = m.index_of(id);
            assert(n[k] == id);
            let i = choose|i: int|
                0 <= i < t.len() && (#[trigger] t[i]).id == id && t[i].msg_name == name && t[i].oid
                    == oid;
            assert(s[i] == t[i]);
        }
        if x.id == id && x.msg_name == name && x.oid == oid {
            assert(n[n.len() - 1] == id);
        }
        if n.contains(id) && !m.contains(id) {
            let k = n.index_of(id);
            if k < m.len() {
                assert(m[k] == id);
            }
        }
        if exists|i: int|
            0 <= i < s.len() && (#[trigger] s[i]).id == id && s[i].msg_name == name && s[i].oid
                == oid {
            let i = choose|i: int|
                0 <= i < s.len() && (#[trigger] s[i]).id == id && s[i].msg_name == name && s[i].oid
                    == oid;
            if i < t.len() {
                assert(t[i] == s[i]);
            }
        }
    }
}

/// The first interceptor gets the number one, and each further one the next.
pub proof fn law_numbers_from_one_on(a: Seq<char>, b: Seq<char>, o: Option<u32>, p: Option<u32>)
    ensures
        ({
            let one = interceptor_added(no_interceptors(), a, o);
            let two = interceptor_added(one, b, p);
            &&& no_interceptors().entries.len() == 0
            &&& one.entries.len() == 1 && one.entries[0].id.0 == 1
            &&& two.entries.len() == 2 && two.entries[1].id.0 == 2
        }),
{
}

} // verus!
