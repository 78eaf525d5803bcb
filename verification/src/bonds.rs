//! Devices bonded for folder sync, keyed by node id.

use vstd::prelude::*;

verus! {

#[derive(Debug, Clone)]
pub struct SyncFolder {
    pub id: String,
    pub path: String,
    pub status: String,
    pub last_synced: Option<String>,
}

#[derive(Debug, Clone)]
pub struct BondedDevice {
    pub node_id: String,
    pub device_name: String,
    pub os: String,
    pub date_bonded: String,
    pub sync_folders: Vec<SyncFolder>,
}

pub open spec fn node_ids_unique(devs: Seq<BondedDevice>) -> bool {
    forall|i: int, j: int|
        0 <= i < devs.len() && 0 <= j < devs.len() && i != j ==> #[trigger] devs[i].node_id@
            != #[trigger] devs[j].node_id@
}

pub open spec fn is_bonded(devs: Seq<BondedDevice>, node_id: Seq<char>) -> bool {
    exists|i: int| 0 <= i < devs.len() && #[trigger] devs[i].node_id@ == node_id
}

/// `devs` without the entries bonded to `node_id`, order kept.
pub open spec fn without_node(devs: Seq<BondedDevice>, node_id: Seq<char>) -> Seq<BondedDevice>
    decreases devs.len(),
{
    if devs.len() == 0 {
        devs
    } else {
        let rest = without_node(devs.drop_last(), node_id);
        if devs.last().node_id@ == node_id {
            rest
        } else {
            rest.push(devs.last())
        }
    }
}

pub proof fn lemma_without_node_members(devs: Seq<BondedDevice>, node_id: Seq<char>)
    ensures
        forall|k: int| 0 <= k < without_node(devs, node_id).len() ==> #[trigger] without_node(devs, node_id)[k].node_id@ != node_id,
        forall|k: int| 0 <= k < devs.len() && #[trigger] devs[k].node_id@ != node_id ==> without_node(devs, node_id).contains(devs[k]),
    decreases devs.len(),
{
    if devs.len() > 0 {
        let init = devs.drop_last();
        lemma_without_node_members(init, node_id);
        let rest = without_node(init, node_id);
        if devs.last().node_id@ != node_id {
            let r = rest.push(devs.last());
            assert forall|k: int| 0 <= k < devs.len() && #[trigger] devs[k].node_id@ != node_id implies r.contains(devs[k]) by {
                if k < devs.len() - 1 {
                    assert(init[k] == devs[k]);
                    assert(init[k].node_id@ != node_id);
                    let m = choose|m: int| 0 <= m < rest.len() && rest[m] == init[k];
                    assert(r[m] == devs[k]);
                } else {
                    assert(r[rest.len() as int] == devs[k]);
                }
            }
        } else {
            assert forall|k: int| 0 <= k < devs.len() && #[trigger] devs[k].node_id@ != node_id implies rest.contains(devs[k]) by {
                assert(k < devs.len() - 1);
                assert(init[k] == devs[k]);
                assert(init[k].node_id@ != node_id);
            }
        }
    }
}

/// The folder-sync bonds. Persisting them is the caller's part.
pub struct SyncManager {
    pub bonded_devices: Vec<BondedDevice>,
}

impl SyncManager {
    pub fn from_devices(bonded_devices: Vec<BondedDevice>) -> (m: Self)
        ensures
            m.bonded_devices@ == bonded_devices@,
    {
        SyncManager { bonded_devices }
    }

    pub fn is_bonded(&self, node_id: &String) -> (r: bool)
        ensures
            r == is_bonded(self.bonded_devices@, node_id@),
    {
        let mut i: usize = 0;
        while i < self.bonded_devices.len()
            invariant
                i <= self.bonded_devices@.len(),
                forall|j: int| 0 <= j < i ==> self.bonded_devices@[j].node_id@ != node_id@,
            decreases self.bonded_devices@.len() - i,
        {
            if self.bonded_devices[i].node_id == *node_id {
                assert(self.bonded_devices@[i as int].node_id@ == node_id@);
                return true;
            }
            i = i + 1;
        }
        false
    }

    /// Bonds a device unless its node id is already bonded; returns whether it
    /// was added (the caller then saves and wakes the folder watcher).
    pub fn add_bonded_device(&mut self, device: BondedDevice) -> (added: bool)
        ensures
            added == !is_bonded(old(self).bonded_devices@, device.node_id@),
            added ==> final(self).bonded_devices@ == old(self).bonded_devices@.push(device),
            !added ==> final(self).bonded_devices@ == old(self).bonded_devices@,
    {
        if self.is_bonded(&device.node_id) {
            false
        } else {
            self.bonded_devices.push(device);
            true
        }
    }

    /// Drops every bond with `node_id`, keeping the others in order.
    pub fn remove_bonded_device(&mut self, node_id: &String)
        ensures
            final(self).bonded_devices@ == without_node(old(self).bonded_devices@, node_id@),
    {
        let mut kept: Vec<BondedDevice> = Vec::new();
        let mut old_devs: Vec<BondedDevice> = Vec::new();
        std::mem::swap(&mut old_devs, &mut self.bonded_devices);
        let ghost all = old_devs@;
        let ghost mut i: int = 0;
        while old_devs.len() > 0
            invariant
                0 <= i <= all.len(),
                old_devs@ == all.skip(i),
                kept@ == without_node(all.take(i), node_id@),
            decreases old_devs@.len(),
        {
            let d = old_devs.remove(0);
            proof {
                assert(all.skip(i)[0] == d);
                assert(all.take(i + 1).drop_last() =~= all.take(i));
                assert(all.take(i + 1).last() == d);
            }
            if d.node_id != *node_id {
                kept.push(d);
            }
            proof {
                assert(old_devs@ =~= all.skip(i + 1));
                i = i + 1;
            }
        }
        assert(all.take(i) =~= all);
        self.bonded_devices = kept;
    }
}

/// Adding a device keeps node ids unique and leaves it bonded.
pub proof fn lemma_add_keeps_unique(devs: Seq<BondedDevice>, device: BondedDevice)
    requires
        node_ids_unique(devs),
    ensures
        !is_bonded(devs, device.node_id@) ==> node_ids_unique(devs.push(device)),
        is_bonded(
            if is_bonded(devs, device.node_id@) { devs } else { devs.push(device) },
            device.node_id@,
        ),
{
    if !is_bonded(devs, device.node_id@) {
        assert(devs.push(device)[devs.len() as int].node_id@ == device.node_id@);
    }
}

/// After removal no bond with that node id remains, and every other bond is
/// kept.
pub proof fn lemma_remove_unbonds(devs: Seq<BondedDevice>, node_id: Seq<char>)
    ensures
        !is_bonded(without_node(devs, node_id), node_id),
        forall|d: BondedDevice| devs.contains(d) && d.node_id@ != node_id ==> #[trigger] without_node(devs, node_id).contains(d),
{
    lemma_without_node_members(devs, node_id);
    assert forall|d: BondedDevice| devs.contains(d) && d.node_id@ != node_id implies #[trigger] without_node(devs, node_id).contains(d) by {
        let k = choose|k: int| 0 <= k < devs.len() && devs[k] == d;
        assert(devs[k].node_id@ != node_id);
    }
}


/// The file that holds the bonds.
pub const SYNC_FILE: &'static str = "sync.json";

/// The name of the synced folder made for a new bond inside the downloads
/// directory: `send2me-sync` in release builds; in debug builds `sync1`, or
/// `sync2` for the second instance (the one with a directory suffix).
pub open spec fn sync_folder_name_spec(debug_build: bool, has_suffix: bool) -> Seq<char> {
    if !debug_build {
        "send2me-sync"@
    } else if has_suffix {
        "sync2"@
    } else {
        "sync1"@
    }
}

pub fn sync_folder_name(debug_build: bool, has_suffix: bool) -> (s: String)
    ensures
        s@ == sync_folder_name_spec(debug_build, has_suffix),
{
    if !debug_build {
        String::from_str("send2me-sync")
    } else if has_suffix {
        String::from_str("sync2")
    } else {
        String::from_str("sync1")
    }
}

/// A new bond as made on acceptance: bonded at `date_bonded`, with the one
/// synced folder `folder` (its id and path) when it could be created, idle
/// and never synced.
pub fn new_bond(
    node_id: String,
    device_name: String,
    os: String,
    date_bonded: String,
    folder: Option<(String, String)>,
) -> (d: BondedDevice)
    ensures
        d.node_id@ == node_id@,
        d.device_name@ == device_name@,
        d.os@ == os@,
        d.date_bonded@ == date_bonded@,
        match folder {
            Some((id, path)) => d.sync_folders@.len() == 1 && d.sync_folders@[0].id@ == id@
                && d.sync_folders@[0].path@ == path@ && d.sync_folders@[0].status@ == "Idle"@
                && d.sync_folders@[0].last_synced is None,
            None => d.sync_folders@.len() == 0,
        },
{
    let mut sync_folders: Vec<SyncFolder> = Vec::new();
    match folder {
        Some((id, path)) => {
            sync_folders.push(SyncFolder { id, path, status: String::from_str("Idle"), last_synced: None });
        },
        None => {},
    }
    BondedDevice { node_id, device_name, os, date_bonded, sync_folders }
}

/// The folder a sync from `node_id` lands in: the first synced folder of its
/// bond.
/// `k` is the first bond with `node_id`.
pub open spec fn first_bond_at(devs: Seq<BondedDevice>, node_id: Seq<char>, k: int) -> bool {
    0 <= k < devs.len() && devs[k].node_id@ == node_id
        && forall|j: int| 0 <= j < k ==> (#[trigger] devs[j]).node_id@ != node_id
}

/// The first synced folder of the first bond with `node_id`.
pub open spec fn landing_folder(devs: Seq<BondedDevice>, node_id: Seq<char>) -> Option<Seq<char>> {
    if is_bonded(devs, node_id) {
        let k = choose|k: int| #[trigger] first_bond_at(devs, node_id, k);
        if devs[k].sync_folders@.len() > 0 {
            Some(devs[k].sync_folders@[0].path@)
        } else {
            None
        }
    } else {
        None
    }
}

/// Why an incoming sync has nowhere to land.
#[derive(Debug, Clone, Copy, PartialEq, Eq, Structural)]
pub enum LandingFault {
    /// The sender is not bonded.
    Unbonded,
    /// The sender's bond has no synced folder.
    NoFolder,
}

impl SyncManager {
    /// The folder an incoming sync from `node_id` is written to: that of the
    /// first bond with that node id.
    pub fn sync_folder_for(&self, node_id: &String) -> (r: Result<String, LandingFault>)
        ensures
            match r {
                Ok(p) => landing_folder(self.bonded_devices@, node_id@) == Some(p@),
                Err(LandingFault::Unbonded) => !is_bonded(self.bonded_devices@, node_id@),
                Err(LandingFault::NoFolder) => is_bonded(self.bonded_devices@, node_id@)
                    && landing_folder(self.bonded_devices@, node_id@) is None,
            },
    {
        let mut i: usize = 0;
        while i < self.bonded_devices.len()
            invariant
                i <= self.bonded_devices@.len(),
                forall|j: int| 0 <= j < i ==> (#[trigger] self.bonded_devices@[j]).node_id@ != node_id@,
            decreases self.bonded_devices@.len() - i,
        {
            if self.bonded_devices[i].node_id == *node_id {
                proof {
                    let devs = self.bonded_devices@;
                    assert(first_bond_at(devs, node_id@, i as int));
                    assert(is_bonded(devs, node_id@));
                    let k = choose|k: int| #[trigger] first_bond_at(devs, node_id@, k);
                    if k < i {
                        assert(devs[k].node_id@ != node_id@);
                    }
                    if k > i {
                        assert(devs[i as int].node_id@ != node_id@);
                    }
                    assert(k == i);
                }
                if self.bonded_devices[i].sync_folders.len() > 0 {
                    return Ok(self.bonded_devices[i].sync_folders[0].path.clone());
                } else {
                    return Err(LandingFault::NoFolder);
                }
            }
            i = i + 1;
        }
        Err(LandingFault::Unbonded)
    }
}

} // verus!
