//! The buffer ownership/transfer protocol.
//!
//! Any data crossing the boundary travels in a boundary-owned allocation
//! described by a `Buf` descriptor: an (address, length, capacity) triple with
//! the invariant `capacity == length`. The bridge keeps every live allocation
//! in a `BufferStore`; a descriptor's address is a small non-zero id into that
//! store (zero denotes "nothing allocated"). The caller must return each
//! descriptor exactly once through `release`; releasing a zero-length
//! descriptor is a guaranteed no-op.

use vstd::prelude::*;

verus! {

/// A boundary-owned allocation: address (store id; zero means null), length
/// in bytes, and capacity. Every descriptor the bridge produces satisfies
/// `cap == len`, so the three integers alone suffice to free correctly.
#[derive(Debug, Clone, Copy, PartialEq, Eq, Structural)]
pub struct Buf {
    pub ptr: usize,
    pub len: usize,
    pub cap: usize,
}

/// The set of live boundary-owned allocations, slot by slot.
pub struct BufferStore {
    slots: Vec<Option<Vec<u8>>>,
}

impl View for BufferStore {
    type V = Seq<Option<Seq<u8>>>;

    closed spec fn view(&self) -> Seq<Option<Seq<u8>>> {
        self.slots.deep_view()
    }
}

/// The first vacant slot at or after `i`, or `s.len()` if none is vacant.
pub open spec fn spec_first_free_from(s: Seq<Option<Seq<u8>>>, i: int) -> int
    decreases s.len() - i,
{
    if i < 0 || i >= s.len() {
        s.len() as int
    } else if s[i] is None {
        i
    } else {
        spec_first_free_from(s, i + 1)
    }
}

/// What `produce` does to the store: the new store and the address handed out.
pub open spec fn spec_produce(s: Seq<Option<Seq<u8>>>, b: Seq<u8>) -> (Seq<
    Option<Seq<u8>>,
>, int) {
    if b.len() == 0 {
        (s, 0)
    } else {
        let i = spec_first_free_from(s, 0);
        if i == s.len() {
            (s.push(Some(b)), i + 1)
        } else {
            (s.update(i, Some(b)), i + 1)
        }
    }
}

/// What `release` does to the store.
pub open spec fn spec_release(s: Seq<Option<Seq<u8>>>, ptr: int, len: int) -> Seq<
    Option<Seq<u8>>,
> {
    if len == 0 {
        s
    } else if 1 <= ptr && ptr <= s.len() {
        s.update(ptr - 1, None)
    } else {
        s
    }
}

impl BufferStore {
    /// A store with no live allocations.
    pub fn new() -> (r: BufferStore)
        ensures
            r@ == Seq::<Option<Seq<u8>>>::empty(),
    {
        BufferStore { slots: Vec::new() }
    }

    /// Takes ownership of a byte sequence and converts it into a descriptor
    /// with `cap == len`. An empty sequence yields the null descriptor and
    /// leaves the store untouched.
    pub fn produce(&mut self, bytes: Vec<u8>) -> (b: Buf)
        ensures
            b.cap == b.len,
            b.len == bytes@.len(),
            final(self)@ == spec_produce(old(self)@, bytes@).0,
            b.ptr == spec_produce(old(self)@, bytes@).1,
            b.len > 0 ==> 1 <= b.ptr <= final(self)@.len() && final(self)@[b.ptr - 1] == Some(
                bytes@,
            ),
            b.len == 0 ==> b.ptr == 0,
    {
        let n = bytes.len();
        if n == 0 {
            return Buf { ptr: 0, len: 0, cap: 0 };
        }
        let mut i: usize = 0;
        while i < self.slots.len() && self.slots[i].is_some()
            invariant
                0 <= i <= self.slots@.len(),
                forall|j: int| 0 <= j < i ==> self.slots.deep_view()[j] is Some,
            decreases self.slots@.len() - i,
        {
            i = i + 1;
        }
        proof {
            lemma_first_free_agrees(self@, i as int);
        }
        if i == self.slots.len() {
            self.slots.push(Some(bytes));
            let p = self.slots.len();
            proof {
                assert(self@ =~~= old(self)@.push(Some(bytes@)));
            }
            Buf { ptr: p, len: n, cap: n }
        } else {
            self.slots[i] = Some(bytes);
            proof {
                assert(self@ =~~= old(self)@.update(i as int, Some(bytes@)));
            }
            Buf { ptr: i + 1, len: n, cap: n }
        }
    }

    /// Reconstructs the allocation from the descriptor fields and lets it
    /// drop. Requires `cap == len`, matching `produce`'s invariant. A
    /// zero-length descriptor is a guaranteed no-op, whatever its address;
    /// this can never fault.
    pub fn release(&mut self, b: Buf)
        requires
            b.cap == b.len,
        ensures
            final(self)@ == spec_release(old(self)@, b.ptr as int, b.len as int),
    {
        if b.len == 0 {
            return ;
        }
        if 1 <= b.ptr && b.ptr - 1 < self.slots.len() {
            self.slots[b.ptr - 1] = None;
            proof {
                assert(self@ =~~= old(self)@.update(b.ptr - 1, None));
            }
        }
    }

    /// The bytes a descriptor refers to, if its slot is live.
    pub fn read_buffer(&self, b: &Buf) -> (r: Option<Vec<u8>>)
        ensures
            match r {
                Some(v) => 1 <= b.ptr <= self@.len() && self@[b.ptr - 1] == Some(v@),
                None => b.ptr == 0 || b.ptr > self@.len() || self@[b.ptr - 1] is None,
            },
    {
        if 1 <= b.ptr && b.ptr - 1 < self.slots.len() {
            match &self.slots[b.ptr - 1] {
                Some(v) => {
                    let c = clone_bytes(v);
                    Some(c)
                },
                None => None,
            }
        } else {
            None
        }
    }
}

/// After a loop that skipped `i` occupied slots and stopped at a vacant one
/// (or at the end), `i` is exactly the first vacant slot.
proof fn lemma_first_free_agrees(s: Seq<Option<Seq<u8>>>, i: int)
    requires
        0 <= i <= s.len(),
        forall|j: int| 0 <= j < i ==> s[j] is Some,
        i < s.len() ==> s[i] is None,
    ensures
        spec_first_free_from(s, 0) == i,
{
    lemma_first_free_step(s, 0, i);
}

proof fn lemma_first_free_step(s: Seq<Option<Seq<u8>>>, k: int, i: int)
    requires
        0 <= k <= i <= s.len(),
        forall|j: int| k <= j < i ==> s[j] is Some,
        i < s.len() ==> s[i] is None,
    ensures
        spec_first_free_from(s, k) == i,
    decreases i - k,
{
    if k < i {
        lemma_first_free_step(s, k + 1, i);
    }
}

/// A copy of a byte vector, element for element.
fn clone_bytes(v: &Vec<u8>) -> (r: Vec<u8>)
    ensures
        r@ == v@,
{
    let mut out: Vec<u8> = Vec::new();
    let mut i: usize = 0;
    while i < v.len()
        invariant
            0 <= i <= v@.len(),
            out@ == v@.subrange(0, i as int),
        decreases v@.len() - i,
    {
        out.push(v[i]);
        proof {
            assert(out@ == v@.subrange(0, i + 1 as int));
        }
        i = i + 1;
    }
    proof {
        assert(v@.subrange(0, v@.len() as int) == v@);
    }
    out
}

/// Law: a produced descriptor can be released exactly once without fault, and
/// doing so restores the store's live contents: every slot that was live
/// before is unchanged, and nothing else is live afterwards (no leak, no
/// double-free).
pub proof fn lemma_release_after_produce(s: Seq<Option<Seq<u8>>>, b: Seq<u8>)
    ensures
        ({
            let (ns, p) = spec_produce(s, b);
            let rs = spec_release(ns, p, b.len() as int);
            &&& rs.len() >= s.len()
            &&& forall|j: int| 0 <= j < s.len() ==> rs[j] == s[j]
            &&& forall|j: int| s.len() <= j < rs.len() ==> rs[j] is None
        }),
{
    if b.len() == 0 {
    } else {
        lemma_first_free_in_range(s, 0);
        let i = spec_first_free_from(s, 0);
        if i < s.len() {
            lemma_first_free_vacant(s, 0);
        }
    }
}

/// Law: releasing a zero-length descriptor is a no-op, whatever its address.
pub proof fn lemma_release_zero_len_noop(s: Seq<Option<Seq<u8>>>, ptr: int)
    ensures
        spec_release(s, ptr, 0) == s,
{
}

proof fn lemma_first_free_in_range(s: Seq<Option<Seq<u8>>>, k: int)
    requires
        0 <= k <= s.len(),
    ensures
        k <= spec_first_free_from(s, k) <= s.len(),
    decreases s.len() - k,
{
    if k < s.len() && !(s[k] is None) {
        lemma_first_free_in_range(s, k + 1);
    }
}

proof fn lemma_first_free_vacant(s: Seq<Option<Seq<u8>>>, k: int)
    requires
        0 <= k <= s.len(),
        spec_first_free_from(s, k) < s.len(),
    ensures
        s[spec_first_free_from(s, k)] is None,
    decreases s.len() - k,
{
    if k < s.len() && !(s[k] is None) {
        lemma_first_free_vacant(s, k + 1);
    }
}

} // verus!
