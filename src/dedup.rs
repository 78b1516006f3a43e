use vstd::prelude::*;

verus! {

/// Width of the window of counters remembered behind the largest one received.
pub const MSG_RX_STATE_BITMAP_LEN: u32 = 32;

/// The duplicate-detection state of a session: the largest counter received
/// and a bitmap of the counters received just below it (bit `k` stands for
/// `max_ctr - 1 - k`).
#[derive(Debug, Clone, Copy, PartialEq, Eq, Structural)]
pub struct RxCtrState {
    pub max_ctr: u32,
    pub rx_bitmap: u32,
}

/// How far `ctr` is ahead of `max`, modulo 2^32.
pub open spec fn ctr_distance(max: u32, ctr: u32) -> int {
    if ctr >= max {
        ctr - max
    } else {
        ctr + 0x1_0000_0000 - max
    }
}

pub open spec fn bit_set(bm: u32, idx: u32) -> bool {
    (bm >> idx) & 1u32 == 1u32
}

/// The index in the bitmap of a counter at distance `d` behind the window's top.
pub open spec fn window_index(d: int) -> u32 {
    (0x1_0000_0000 - d - 1) as u32
}

/// The bitmap after the largest counter moved `d` ahead.
pub open spec fn shifted(bm: u32, d: u32) -> u32 {
    if d < 32 {
        (bm << d) | (1u32 << ((d - 1) as u32))
    } else if d == 32 {
        1u32 << 31u32
    } else {
        0
    }
}

/// Whether a received counter is new: ahead of the window, in it and unseen,
/// or, for an unencrypted session only, behind it.
pub open spec fn rx_accepts(s: RxCtrState, ctr: u32, encrypted: bool) -> bool {
    let d = ctr_distance(s.max_ctr, ctr);
    if d == 0 {
        false
    } else if d >= 0x1_0000_0000 - MSG_RX_STATE_BITMAP_LEN {
        !bit_set(s.rx_bitmap, window_index(d))
    } else if d < 0x8000_0000 {
        true
    } else {
        !encrypted
    }
}

/// The duplicate-detection state after receiving a counter.
pub open spec fn rx_next(s: RxCtrState, ctr: u32, encrypted: bool) -> RxCtrState {
    let d = ctr_distance(s.max_ctr, ctr);
    if !rx_accepts(s, ctr, encrypted) {
        s
    } else if d >= 0x1_0000_0000 - MSG_RX_STATE_BITMAP_LEN {
        RxCtrState { rx_bitmap: s.rx_bitmap | (1u32 << window_index(d)), ..s }
    } else if d < 0x8000_0000 {
        RxCtrState { max_ctr: ctr, rx_bitmap: shifted(s.rx_bitmap, d as u32) }
    } else {
        RxCtrState { max_ctr: ctr, rx_bitmap: 0xffff_ffff }
    }
}

impl RxCtrState {
    pub fn new(max_ctr: u32) -> (r: RxCtrState)
        ensures
            r == (RxCtrState { max_ctr, rx_bitmap: 0 }),
    {
        RxCtrState { max_ctr, rx_bitmap: 0 }
    }

    /// Record a received counter; `false` when it is a duplicate.
    pub fn post_recv(&mut self, ctr: u32, encrypted: bool) -> (r: bool)
        ensures
            r == rx_accepts(*old(self), ctr, encrypted),
            *final(self) == rx_next(*old(self), ctr, encrypted),
    {
        let d: u32 = if ctr >= self.max_ctr {
            ctr - self.max_ctr
        } else {
            ((ctr as u64 + 0x1_0000_0000u64) - self.max_ctr as u64) as u32
        };
        if d == 0 {
            false
        } else if d >= 0xffff_ffe0u32 {
            let idx: u32 = 0xffff_ffffu32 - d;
            if (self.rx_bitmap >> idx) & 1u32 == 1u32 {
                false
            } else {
                self.rx_bitmap = self.rx_bitmap | (1u32 << idx);
                true
            }
        } else if d < 0x8000_0000u32 {
            if d < 32 {
                self.rx_bitmap = (self.rx_bitmap << d) | (1u32 << (d - 1));
            } else if d == 32 {
                self.rx_bitmap = 1u32 << 31u32;
            } else {
                self.rx_bitmap = 0;
            }
            self.max_ctr = ctr;
            true
        } else if !encrypted {
            self.max_ctr = ctr;
            self.rx_bitmap = 0xffff_ffff;
            true
        } else {
            false
        }
    }
}


} // verus!
