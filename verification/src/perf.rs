//! Time spent in each phase of a single coalesced write, in nanoseconds.
use vstd::prelude::*;

verus! {

/// Nanoseconds spent in each phase of single coalesced writes, summed over all writes.
#[derive(Clone, Copy, Debug, PartialEq, Eq, Structural)]
pub struct CoalescedSingleWritePerfCounters {
    pub write_id_ns_total: u64,
    pub remove_clean_ns_total: u64,
    pub snapshot_check_ns_total: u64,
    pub active_publish_ns_total: u64,
    pub snapshot_inflight_check_ns_total: u64,
    pub snapshot_draining_check_ns_total: u64,
    pub snapshot_inflight_lock_ns_total: u64,
    pub snapshot_inflight_scan_ns_total: u64,
    pub snapshot_inflight_index_lookup_ns_total: u64,
    pub snapshot_inflight_record_get_ns_total: u64,
    pub snapshot_draining_lock_ns_total: u64,
    pub snapshot_draining_read_ns_total: u64,
    pub active_map_load_ns_total: u64,
    pub active_entry_publish_ns_total: u64,
    pub active_entry_lookup_ns_total: u64,
    pub active_entry_occupied_ns_total: u64,
    pub active_entry_vacant_ns_total: u64,
    pub active_entry_vacant_box_ns_total: u64,
    pub active_entry_vacant_insert_ns_total: u64,
    pub dirty_count_add_ns_total: u64,
}

impl CoalescedSingleWritePerfCounters {
    /// Whether every counter is zero.
    pub open spec fn all_zero(self) -> bool {
        &&& self.write_id_ns_total == 0
        &&& self.remove_clean_ns_total == 0
        &&& self.snapshot_check_ns_total == 0
        &&& self.active_publish_ns_total == 0
        &&& self.snapshot_inflight_check_ns_total == 0
        &&& self.snapshot_draining_check_ns_total == 0
        &&& self.snapshot_inflight_lock_ns_total == 0
        &&& self.snapshot_inflight_scan_ns_total == 0
        &&& self.snapshot_inflight_index_lookup_ns_total == 0
        &&& self.snapshot_inflight_record_get_ns_total == 0
        &&& self.snapshot_draining_lock_ns_total == 0
        &&& self.snapshot_draining_read_ns_total == 0
        &&& self.active_map_load_ns_total == 0
        &&& self.active_entry_publish_ns_total == 0
        &&& self.active_entry_lookup_ns_total == 0
        &&& self.active_entry_occupied_ns_total == 0
        &&& self.active_entry_vacant_ns_total == 0
        &&& self.active_entry_vacant_box_ns_total == 0
        &&& self.active_entry_vacant_insert_ns_total == 0
        &&& self.dirty_count_add_ns_total == 0
    }
}

impl Default for CoalescedSingleWritePerfCounters {
    /// Every counter at zero.
    fn default() -> (r: Self)
        ensures
            r.all_zero(),
    {
        CoalescedSingleWritePerfCounters {
            write_id_ns_total: 0,
            remove_clean_ns_total: 0,
            snapshot_check_ns_total: 0,
            active_publish_ns_total: 0,
            snapshot_inflight_check_ns_total: 0,
            snapshot_draining_check_ns_total: 0,
            snapshot_inflight_lock_ns_total: 0,
            snapshot_inflight_scan_ns_total: 0,
            snapshot_inflight_index_lookup_ns_total: 0,
            snapshot_inflight_record_get_ns_total: 0,
            snapshot_draining_lock_ns_total: 0,
            snapshot_draining_read_ns_total: 0,
            active_map_load_ns_total: 0,
            active_entry_publish_ns_total: 0,
            active_entry_lookup_ns_total: 0,
            active_entry_occupied_ns_total: 0,
            active_entry_vacant_ns_total: 0,
            active_entry_vacant_box_ns_total: 0,
            active_entry_vacant_insert_ns_total: 0,
            dirty_count_add_ns_total: 0,
        }
    }
}

} // verus!
