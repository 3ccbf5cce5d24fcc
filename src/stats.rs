//! Connection statistics of the gateway shards.

use vstd::prelude::*;

verus! {

/// The connection stage of a shard.
#[derive(PartialEq, Eq, Structural, Clone, Copy, Debug)]
pub enum ShardStage {
    Connected,
    Connecting,
    Disconnected,
    Handshake,
    Identifying,
    Resuming,
}

/// How a stage change moves the number of connected shards.
#[derive(PartialEq, Eq, Structural, Clone, Copy, Debug)]
pub enum ConnectedChange {
    Up,
    Down,
    Unchanged,
}

/// What is known of one shard. Times are milliseconds since the Unix epoch.
#[derive(PartialEq, Eq, Structural, Clone, Copy, Debug)]
pub struct ShardStats {
    pub shard_id: u32,
    /// How many times the shard lost its connection.
    pub restarts: u32,
    pub stage: ShardStage,
    /// When the shard last became connected; `None` while it is not.
    pub ready_at: Option<i64>,
}

impl ShardStats {
    /// The record of a shard first seen at `stage`; one first seen connected
    /// counts as ready now.
    pub fn new(shard_id: u32, stage: ShardStage, now: i64) -> (r: Self)
        ensures
            r.shard_id == shard_id,
            r.restarts == 0,
            r.stage == stage,
            r.ready_at == (if stage == ShardStage::Connected {
                Some(now)
            } else {
                None
            }),
    {
        let ready_at = if stage == ShardStage::Connected {
            Some(now)
        } else {
            None
        };
        ShardStats { shard_id, restarts: 0, stage, ready_at }
    }

    /// Applies a change of stage from `old_stage` to `new_stage` at `now`:
    /// leaving the connected stage clears the ready time and counts a
    /// restart (the count stops at its maximum); reaching it sets the ready
    /// time. Says how the number of connected shards moves.
    pub fn on_stage_update(&mut self, old_stage: ShardStage, new_stage: ShardStage, now: i64) -> (r:
        ConnectedChange)
        ensures
            final(self).shard_id == old(self).shard_id,
            final(self).stage == new_stage,
            old_stage == ShardStage::Connected ==> final(self).ready_at is None && final(self).restarts == (
            if old(self).restarts < u32::MAX {
                old(self).restarts + 1
            } else {
                old(self).restarts as int
            }) && r == ConnectedChange::Down,
            old_stage != ShardStage::Connected && new_stage == ShardStage::Connected ==> final(self).ready_at
                == Some(now) && final(self).restarts == old(self).restarts && r == ConnectedChange::Up,
            old_stage != ShardStage::Connected && new_stage != ShardStage::Connected ==> final(self).ready_at
                == old(self).ready_at && final(self).restarts == old(self).restarts && r
                == ConnectedChange::Unchanged,
    {
        self.stage = new_stage;
        if old_stage == ShardStage::Connected {
            self.ready_at = None;
            if self.restarts < u32::MAX {
                self.restarts = self.restarts + 1;
            }
            ConnectedChange::Down
        } else if new_stage == ShardStage::Connected {
            self.ready_at = Some(now);
            ConnectedChange::Up
        } else {
            ConnectedChange::Unchanged
        }
    }
}

/// The number of connected shards after a change; it stays within `u32`.
pub fn adjust_connected(count: u32, change: ConnectedChange) -> (r: u32)
    ensures
        r == match change {
            ConnectedChange::Up => if count < u32::MAX {
                count + 1
            } else {
                count as int
            },
            ConnectedChange::Down => if count > 0 {
                count - 1
            } else {
                0
            },
            ConnectedChange::Unchanged => count as int,
        },
{
    match change {
        ConnectedChange::Up => if count < u32::MAX {
            count + 1
        } else {
            count
        },
        ConnectedChange::Down => if count > 0 {
            count - 1
        } else {
            0
        },
        ConnectedChange::Unchanged => count,
    }
}

/// Whole seconds between two times in milliseconds, in either order.
pub open spec fn seconds_between(a: int, b: int) -> int {
    if a >= b {
        (a - b) / 1000
    } else {
        (b - a) / 1000
    }
}

/// How long a shard has been up, in whole seconds: from its ready time, or
/// none where it is not connected.
pub fn uptime_secs(ready_at: Option<i64>, now: i64) -> (r: u64)
    ensures
        r == match ready_at {
            Some(t) => seconds_between(now as int, t as int),
            None => 0,
        },
{
    match ready_at {
        None => 0,
        Some(t) => {
            let d: i128 = if now as i128 >= t as i128 {
                now as i128 - t as i128
            } else {
                t as i128 - now as i128
            };
            (d / 1000) as u64
        },
    }
}

} // verus!
