//! Live speed, adapters and per-application usage as the interface shows them.
use crate::monitor::adapter::{get_network_adapters, info_of, usable_rows, AdapterInfo, InterfaceRow};
use vstd::prelude::*;

verus! {

/// The live transfer rates and session totals of the tracked adapter.
pub struct NetworkSpeed {
    pub download_speed: u64,
    pub upload_speed: u64,
    pub total_download: u64,
    pub total_upload: u64,
    pub adapter_name: String,
}

impl NetworkSpeed {
    /// No traffic seen yet.
    pub fn new() -> (s: Self)
        ensures
            s.download_speed == 0,
            s.upload_speed == 0,
            s.total_download == 0,
            s.total_upload == 0,
            s.adapter_name@ == Seq::<char>::empty(),
    {
        NetworkSpeed {
            download_speed: 0,
            upload_speed: 0,
            total_download: 0,
            total_upload: 0,
            adapter_name: String::new(),
        }
    }
}

/// One network adapter as listed to the user.
pub struct NetworkAdapter {
    pub name: String,
    pub description: String,
    pub is_connected: bool,
    pub speed: u64,
}

/// One application's traffic.
pub struct AppNetworkUsage {
    pub pid: u32,
    pub app_name: String,
    pub app_path: String,
    pub upload_bytes: u64,
    pub download_bytes: u64,
    pub total_bytes: u64,
}

/// The adapters of the interface table, in table order.
pub fn get_adapters(rows: &Vec<InterfaceRow>) -> (r: Result<Vec<NetworkAdapter>, String>)
    ensures
        r matches Ok(v) && {
            &&& v@.len() == usable_rows(rows@).len()
            &&& forall|k: int|
                0 <= k < v@.len() ==> {
                    let n = #[trigger] v@[k];
                    info_of(
                        usable_rows(rows@)[k],
                        AdapterInfo {
                            name: n.name,
                            description: n.description,
                            is_connected: n.is_connected,
                            speed: n.speed,
                        },
                    )
                }
        },
{
    let infos = get_network_adapters(rows);
    let mut out: Vec<NetworkAdapter> = Vec::new();
    let mut i: usize = 0;
    while i < infos.len()
        invariant
            i <= infos@.len(),
            out@.len() == i,
            forall|k: int|
                0 <= k < i ==> {
                    let n = #[trigger] out@[k];
                    &&& n.name@ == infos@[k].name@
                    &&& n.description@ == infos@[k].description@
                    &&& n.is_connected == infos@[k].is_connected
                    &&& n.speed == infos@[k].speed
                },
        decreases infos@.len() - i,
    {
        let a = &infos[i];
        out.push(
            NetworkAdapter {
                name: a.name.clone(),
                description: a.description.clone(),
                is_connected: a.is_connected,
                speed: a.speed,
            },
        );
        i = i + 1;
    }
    Ok(out)
}

/// Per-application live usage: not collected, always empty.
pub fn get_app_usage_realtime() -> (r: Result<Vec<AppNetworkUsage>, String>)
    ensures
        r matches Ok(v) && v@.len() == 0,
{
    Ok(Vec::new())
}

} // verus!
