//! The count of bytes that a transfer has brought in, against the total it
//! is expected to bring.

use vstd::prelude::*;

verus! {

/// The progress of one transfer.
#[derive(Debug, Clone, Copy, PartialEq, Eq, Structural)]
pub struct Progress {
    /// The bytes that have arrived.
    pub position: u64,
    /// The bytes that are expected in all.
    pub length: u64,
    /// Whether `length` was announced by the sender; where it was not, it is
    /// a stand-in and the progress has no known total.
    pub determinate: bool,
}

/// The position after `delta` more bytes: the sum, or the largest count that
/// can be held where the sum is beyond it.
pub open spec fn advanced(position: u64, delta: usize) -> u64 {
    if position + delta <= u64::MAX {
        (position + delta) as u64
    } else {
        u64::MAX
    }
}

/// The share of a transfer that has arrived, in whole percent, rounded
/// down and never above a hundred, of a total above zero.
pub open spec fn percent_of(position: u64, length: u64) -> int {
    if position * 100 / (length as int) >= 100 {
        100
    } else {
        position * 100 / (length as int)
    }
}

impl Progress {
    /// The progress of a transfer that has not begun, with a stand-in for
    /// its total.
    pub fn new(length: u64) -> (progress: Progress)
        ensures
            progress == (Progress { position: 0, length, determinate: false }),
    {
        Progress { position: 0, length, determinate: false }
    }

    /// Sets the total once the sender has answered: the length it
    /// announced, or `estimate` where it announced none.
    pub fn set_length(&mut self, announced: Option<u64>, estimate: u64)
        ensures
            *final(self) == (Progress {
                position: old(self).position,
                length: match announced {
                    Some(length) => length,
                    None => estimate,
                },
                determinate: announced is Some,
            }),
    {
        match announced {
            Some(length) => {
                self.length = length;
                self.determinate = true;
            },
            None => {
                self.length = estimate;
                self.determinate = false;
            },
        }
    }

    /// Counts `delta` more bytes. The position never goes back and stops at
    /// the largest count that it can hold.
    pub fn inc(&mut self, delta: usize)
        ensures
            *final(self) == (Progress {
                position: advanced(old(self).position, delta),
                ..*old(self)
            }),
            final(self).position >= old(self).position,
    {
        self.position = self.position.saturating_add(delta as u64);
    }

    /// The share of the transfer that has arrived, in whole percent. There is
    /// a share only where the sender announced a total, and one above zero.
    pub fn percent(&self) -> (share: Option<u8>)
        ensures
            match share {
                Some(percent) => self.determinate && self.length > 0 && percent == percent_of(
                    self.position,
                    self.length,
                ),
                None => !self.determinate || self.length == 0,
            },
    {
        if !self.determinate || self.length == 0 {
            return None;
        }
        let arrived: u128 = self.position as u128 * 100;
        let share: u128 = arrived / (self.length as u128);
        if share >= 100 {
            Some(100)
        } else {
            Some(share as u8)
        }
    }
}

} // verus!
