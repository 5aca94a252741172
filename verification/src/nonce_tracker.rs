//! Replay protection for one direction of a secure channel.
//!
//! A [`NonceTracker`] remembers which of the most recent nonces were already
//! accepted. It is an immutable value: accepting a nonce yields a new tracker.

use vstd::prelude::*;

verus! {

/// How far a nonce may run ahead of, or lag behind, the highest accepted one.
pub const KEY_RENEWAL_INTERVAL: u64 = 32;

/// Counter value that guards one message of a channel against replay.
#[derive(Clone, Copy, Debug, PartialEq, Eq, Structural)]
pub struct Nonce {
    value: u64,
}

impl View for Nonce {
    type V = u64;

    closed spec fn view(&self) -> u64 {
        self.value
    }
}

impl Nonce {
    /// Nonce with the given counter value.
    pub fn new(value: u64) -> (nonce: Nonce)
        ensures
            nonce@ == value,
    {
        Nonce { value }
    }

    /// The counter value.
    pub fn value(&self) -> (value: u64)
        ensures
            value == self@,
    {
        self.value
    }
}

impl From<u64> for Nonce {
    fn from(value: u64) -> (nonce: Nonce)
        ensures
            nonce@ == value,
    {
        Nonce { value }
    }
}

impl vstd::std_specs::convert::FromSpecImpl<u64> for Nonce {
    open spec fn obeys_from_spec() -> bool {
        true
    }

    closed spec fn from_spec(value: u64) -> Nonce {
        Nonce { value }
    }
}

/// Why a message of the channel is refused.
#[derive(Clone, Copy, Debug, PartialEq, Eq, Structural)]
pub enum IdentityError {
    /// The nonce is outside the window, or was accepted before.
    InvalidNonce,
}

/// Mathematical content of a tracker: the highest nonce accepted so far and
/// one bit for each of the 64 nonces that end with it.
pub struct Window {
    pub current: u64,
    pub bitmap: u64,
}

/// Bit `i` of `bitmap`, counted from the least significant one.
pub open spec fn bit_set(bitmap: u64, i: u64) -> bool {
    bitmap & (1u64 << i) != 0
}

impl Window {
    /// The window in which nothing has been accepted.
    pub open spec fn empty() -> Window {
        Window { current: 0, bitmap: 0 }
    }

    /// `nonce` is recorded as accepted.
    pub open spec fn seen(self, nonce: u64) -> bool {
        nonce <= self.current && self.current - nonce < 64 && bit_set(
            self.bitmap,
            (self.current - nonce) as u64,
        )
    }

    /// `nonce` lies further above the highest accepted nonce than is tolerated.
    pub open spec fn too_far_ahead(self, nonce: u64) -> bool {
        nonce > self.current && nonce - self.current > KEY_RENEWAL_INTERVAL
    }

    /// `nonce` lies below the nonces that the window still tells apart.
    pub open spec fn too_far_behind(self, nonce: u64) -> bool {
        nonce <= self.current && self.current - nonce > KEY_RENEWAL_INTERVAL
    }

    /// `nonce` is inside the window and was accepted before.
    pub open spec fn duplicate(self, nonce: u64) -> bool {
        nonce <= self.current && self.current - nonce <= KEY_RENEWAL_INTERVAL && self.seen(nonce)
    }

    /// `nonce` may be accepted: none of the three causes of refusal holds.
    pub open spec fn accepts(self, nonce: u64) -> bool {
        !self.too_far_ahead(nonce) && !self.too_far_behind(nonce) && !self.duplicate(nonce)
    }

    /// The window after `nonce` was accepted. A nonce above the highest one
    /// moves the window up by the difference, dropping the bits that leave
    /// the top, and takes bit 0; any other takes the bit at its distance.
    pub open spec fn marked(self, nonce: u64) -> Window {
        if nonce > self.current {
            Window {
                current: nonce,
                bitmap: (self.bitmap << ((nonce - self.current) as u64)) | 1,
            }
        } else {
            Window {
                current: self.current,
                bitmap: self.bitmap | (1u64 << ((self.current - nonce) as u64)),
            }
        }
    }

    /// What holds of every window that marking can reach from the empty one:
    /// once anything was accepted the highest nonce itself is recorded, and
    /// no bit stands for a nonce below zero.
    pub open spec fn wf(self) -> bool {
        &&& self == Window::empty() || bit_set(self.bitmap, 0)
        &&& forall|i: u64| self.current < i < 64 ==> !bit_set(self.bitmap, i)
    }
}

/// Sliding window over the nonces accepted on one direction of a channel.
#[derive(Debug)]
pub struct NonceTracker {
    nonce_bitmap: u64,
    current_nonce: Nonce,
}

impl View for NonceTracker {
    type V = Window;

    closed spec fn view(&self) -> Window {
        Window { current: self.current_nonce@, bitmap: self.nonce_bitmap }
    }
}

impl NonceTracker {
    /// Tracker of a fresh channel: nothing accepted yet.
    pub fn new() -> (tracker: NonceTracker)
        ensures
            tracker@ == Window::empty(),
            tracker@.wf(),
    {
        proof {
            lemma_empty_window(0);
        }
        NonceTracker { nonce_bitmap: 0, current_nonce: Nonce::new(0) }
    }

    /// The highest nonce accepted so far (zero before the first).
    pub fn current_nonce(&self) -> (nonce: Nonce)
        ensures
            nonce@ == self@.current,
    {
        self.current_nonce
    }

    /// The bits of the window, bit 0 standing for the highest accepted nonce.
    pub fn nonce_bitmap(&self) -> (bitmap: u64)
        ensures
            bitmap == self@.bitmap,
    {
        self.nonce_bitmap
    }

    /// Mark a nonce as received, reject all invalid nonce values.
    ///
    /// The tracker itself never changes: on success the caller replaces it
    /// with the one returned, on failure it keeps the one it has.
    pub fn mark(&self, nonce: Nonce) -> (result: Result<NonceTracker, IdentityError>)
        ensures
            result is Ok <==> self@.accepts(nonce@),
            result matches Ok(tracker) ==> tracker@ == self@.marked(nonce@),
            result matches Ok(tracker) ==> tracker@.current == if nonce@ > self@.current {
                nonce@
            } else {
                self@.current
            },
            result matches Ok(tracker) ==> forall|m: u64| #[trigger]
                tracker@.seen(m) <==> m == nonce@ || (self@.seen(m) && tracker@.current - m < 64),
            result matches Ok(tracker) ==> (self@.wf() ==> tracker@.wf()),
            result matches Err(error) ==> error == IdentityError::InvalidNonce,
    {
        let new_tracker = if nonce.value() > self.current_nonce.value() {
            let relative_shift: u64 = nonce.value() - self.current_nonce.value();
            if relative_shift > KEY_RENEWAL_INTERVAL {
                return Err(IdentityError::InvalidNonce);
            }
            NonceTracker {
                nonce_bitmap: (self.nonce_bitmap << relative_shift) | 1,
                current_nonce: nonce,
            }
        } else {
            let relative: u64 = self.current_nonce.value() - nonce.value();
            if relative > KEY_RENEWAL_INTERVAL {
                return Err(IdentityError::InvalidNonce);
            }
            let bit: u64 = 1u64 << relative;
            if self.nonce_bitmap & bit != 0 {
                return Err(IdentityError::InvalidNonce);
            }
            NonceTracker { nonce_bitmap: self.nonce_bitmap | bit, current_nonce: self.current_nonce }
        };
        proof {
            lemma_marked_wf(self@, nonce@);
            assert forall|m: u64| #[trigger]
                new_tracker@.seen(m) <==> m == nonce@ || (self@.seen(m) && new_tracker@.current
                    - m < 64) by {
                lemma_marked_seen(self@, nonce@, m);
            }
        }
        Ok(new_tracker)
    }
}

/// Bits of a bitmap moved up by `s` places with bit 0 then set.
proof fn lemma_shifted_bits(b: u64, s: u64, i: u64)
    by (bit_vector)
    requires
        s < 64,
        i < 64,
    ensures
        bit_set((b << s) | 1, i) == (i == 0 || (i >= s && bit_set(b, (i - s) as u64))),
{
}

/// Bits of a bitmap after bit `r` was set.
proof fn lemma_added_bit(b: u64, r: u64, i: u64)
    by (bit_vector)
    requires
        r < 64,
        i < 64,
    ensures
        bit_set(b | (1u64 << r), i) == (i == r || bit_set(b, i)),
{
}

/// Marking an acceptable nonce keeps a window well formed.
pub proof fn lemma_marked_wf(w: Window, nonce: u64)
    requires
        w.accepts(nonce),
    ensures
        w.wf() ==> w.marked(nonce).wf(),
{
    let next = w.marked(nonce);
    if w.wf() {
        if nonce > w.current {
            let s = (nonce - w.current) as u64;
            lemma_shifted_bits(w.bitmap, s, 0);
            assert forall|i: u64| next.current < i < 64 implies !bit_set(next.bitmap, i) by {
                lemma_shifted_bits(w.bitmap, s, i);
            }
        } else {
            let r = (w.current - nonce) as u64;
            lemma_added_bit(w.bitmap, r, 0);
            assert forall|i: u64| next.current < i < 64 implies !bit_set(next.bitmap, i) by {
                lemma_added_bit(w.bitmap, r, i);
            }
            if w == Window::empty() {
                assert(r == 0);
            }
        }
    }
}

/// The window and the highest nonce itself fit into the 64 bits of the
/// bitmap.
pub proof fn lemma_window_fits_bitmap()
    ensures
        KEY_RENEWAL_INTERVAL + 1 <= u64::BITS,
{
}

/// The empty window records nothing, and accepts exactly the nonces that
/// are at most `KEY_RENEWAL_INTERVAL`.
pub proof fn lemma_empty_window(nonce: u64)
    ensures
        Window::empty().wf(),
        !Window::empty().seen(nonce),
        Window::empty().accepts(nonce) <==> nonce <= KEY_RENEWAL_INTERVAL,
{
    assert(forall|i: u64| i < 64 ==> 0u64 & (1u64 << i) == 0) by (bit_vector);
}

/// What a window records after an acceptable nonce was marked: that nonce,
/// and every nonce recorded before that is still among the 64 the bitmap
/// can hold. Nothing else appears, so a bit that left the top never returns.
pub proof fn lemma_marked_seen(w: Window, nonce: u64, m: u64)
    requires
        w.accepts(nonce),
    ensures
        w.marked(nonce).seen(m) <==> m == nonce || (w.seen(m) && w.marked(nonce).current - m
            < 64),
{
    let next = w.marked(nonce);
    if m <= next.current && next.current - m < 64 {
        let i = (next.current - m) as u64;
        if nonce > w.current {
            lemma_shifted_bits(w.bitmap, (nonce - w.current) as u64, i);
        } else {
            lemma_added_bit(w.bitmap, (w.current - nonce) as u64, i);
        }
    }
}

/// A nonce that a window records is refused, and stays refused after any
/// further nonce was accepted: as a duplicate while it is inside the window,
/// as too far behind once it has left it.
pub proof fn lemma_seen_is_refused(w: Window, m: u64, nonce: u64)
    requires
        w.seen(m),
    ensures
        !w.accepts(m),
        w.accepts(nonce) ==> !w.marked(nonce).accepts(m),
{
    if w.accepts(nonce) {
        lemma_marked_seen(w, nonce, m);
    }
}

/// The edges of the window, for a window whose highest nonce `x` is
/// recorded. Marking `x` again is a duplicate. The nonce
/// `KEY_RENEWAL_INTERVAL` below `x` is still accepted unless it was seen, the
/// one below that is too far behind. The nonce `KEY_RENEWAL_INTERVAL` above
/// `x` is accepted and becomes the highest, the one above that is too far
/// ahead; and the same bound holds again from the new highest nonce.
pub proof fn lemma_window_edges(w: Window)
    requires
        w.seen(w.current),
    ensures
        w.duplicate(w.current) && !w.accepts(w.current),
        w.current >= KEY_RENEWAL_INTERVAL && !w.seen((w.current - KEY_RENEWAL_INTERVAL) as u64)
            ==> w.accepts((w.current - KEY_RENEWAL_INTERVAL) as u64),
        w.current >= KEY_RENEWAL_INTERVAL + 1 ==> {
            let low = (w.current - KEY_RENEWAL_INTERVAL - 1) as u64;
            w.too_far_behind(low) && !w.accepts(low)
        },
        w.current + KEY_RENEWAL_INTERVAL <= u64::MAX ==> {
            let high = (w.current + KEY_RENEWAL_INTERVAL) as u64;
            let next = w.marked(high);
            &&& w.accepts(high)
            &&& next.current == high
            &&& next.seen(high)
            &&& high + KEY_RENEWAL_INTERVAL + 1 <= u64::MAX ==> next.too_far_ahead(
                (high + KEY_RENEWAL_INTERVAL + 1) as u64,
            )
        },
        w.current + KEY_RENEWAL_INTERVAL + 1 <= u64::MAX ==> {
            let beyond = (w.current + KEY_RENEWAL_INTERVAL + 1) as u64;
            w.too_far_ahead(beyond) && !w.accepts(beyond)
        },
{
    if w.current + KEY_RENEWAL_INTERVAL <= u64::MAX {
        let high = (w.current + KEY_RENEWAL_INTERVAL) as u64;
        lemma_marked_seen(w, high, high);
    }
}

/// The window after the nonces of `nonces` were marked one after the other,
/// if each of them was accepted in its turn.
pub open spec fn marked_all(w: Window, nonces: Seq<u64>) -> Option<Window>
    decreases nonces.len(),
{
    if nonces.len() == 0 {
        Some(w)
    } else {
        match marked_all(w, nonces.drop_last()) {
            Some(before) => if before.accepts(nonces.last()) {
                Some(before.marked(nonces.last()))
            } else {
                None
            },
            None => None,
        }
    }
}

/// Nonces that rise strictly from the empty window, none more than
/// `KEY_RENEWAL_INTERVAL` above the one before it (the first at most that far
/// above zero), are accepted one and all; the window then stands at the last
/// of them, and marking any of them a second time is refused.
pub proof fn lemma_rising_nonces(nonces: Seq<u64>)
    requires
        nonces.len() > 0,
        nonces[0] <= KEY_RENEWAL_INTERVAL,
        forall|i: int|
            0 < i < nonces.len() ==> nonces[i - 1] < #[trigger] nonces[i] && nonces[i] - nonces[i
                - 1] <= KEY_RENEWAL_INTERVAL,
    ensures
        marked_all(Window::empty(), nonces) matches Some(w) && w.current == nonces.last()
            && w.wf() && forall|i: int| 0 <= i < nonces.len() ==> !w.accepts(#[trigger] nonces[i]),
    decreases nonces.len(),
{
    let last = nonces.last();
    let front = nonces.drop_last();
    let empty = Window::empty();
    lemma_empty_window(last);
    if nonces.len() == 1 {
        assert(front.len() == 0);
        assert(marked_all(empty, front) == Some(empty));
        lemma_marked_wf(empty, last);
        lemma_marked_seen(empty, last, last);
    } else {
        assert forall|i: int| 0 < i < front.len() implies front[i - 1] < #[trigger] front[i]
            && front[i] - front[i - 1] <= KEY_RENEWAL_INTERVAL by {
            assert(front[i] == nonces[i] && front[i - 1] == nonces[i - 1]);
        }
        assert(front[0] == nonces[0]);
        lemma_rising_nonces(front);
        let before = marked_all(empty, front)->Some_0;
        assert(before.current == nonces[nonces.len() - 2]);
        assert(before.accepts(last));
        lemma_marked_wf(before, last);
        let w = before.marked(last);
        lemma_marked_seen(before, last, last);
        assert forall|i: int| 0 <= i < nonces.len() implies !w.accepts(#[trigger] nonces[i]) by {
            if i < nonces.len() - 1 {
                assert(front[i] == nonces[i]);
                lemma_rising_bound(front, i);
                if before.seen(nonces[i]) {
                    lemma_seen_is_refused(before, nonces[i], last);
                }
            }
        }
    }
}

/// In a strictly rising sequence no element exceeds the last one.
proof fn lemma_rising_bound(nonces: Seq<u64>, i: int)
    requires
        0 <= i < nonces.len(),
        forall|j: int| 0 < j < nonces.len() ==> nonces[j - 1] < #[trigger] nonces[j],
    ensures
        nonces[i] <= nonces.last(),
    decreases nonces.len() - i,
{
    if i < nonces.len() - 1 {
        lemma_rising_bound(nonces, i + 1);
    }
}

} // verus!
