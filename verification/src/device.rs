//! Compute-device detection decisions (the probes themselves run `nvidia-smi`).
use vstd::prelude::*;
use crate::text::{owned, trim, trim_string};

verus! {

/// What the machine offers: an NVIDIA GPU (and its name), and the backends to choose
/// from (`cpu` always, `cuda` with an NVIDIA GPU).
pub struct DeviceInfo {
    pub has_nvidia_gpu: bool,
    pub gpu_name: String,
    pub available: Vec<String>,
}

/// Where `nvidia-smi` is looked for, in order.
pub fn nvidia_smi_candidates() -> (r: Vec<String>)
    ensures
        r@.map_values(|s: String| s@) == seq![
            "nvidia-smi"@,
            "C:\\Windows\\System32\\nvidia-smi.exe"@,
            "C:\\Program Files\\NVIDIA Corporation\\NVSMI\\nvidia-smi.exe"@,
        ],
{
    let mut r: Vec<String> = Vec::new();
    r.push(owned("nvidia-smi"));
    r.push(owned("C:\\Windows\\System32\\nvidia-smi.exe"));
    r.push(owned("C:\\Program Files\\NVIDIA Corporation\\NVSMI\\nvidia-smi.exe"));
    assert(r@.map_values(|s: String| s@) =~= seq![
        "nvidia-smi"@,
        "C:\\Windows\\System32\\nvidia-smi.exe"@,
        "C:\\Program Files\\NVIDIA Corporation\\NVSMI\\nvidia-smi.exe"@,
    ]);
    r
}

/// The GPU name from `nvidia-smi --query-gpu=name`: its trimmed output when the run
/// succeeded and printed something.
pub fn gpu_name_from_output(success: bool, stdout: &str) -> (r: Option<String>)
    ensures
        !success ==> r is None,
        success && trim(stdout@).len() == 0 ==> r is None,
        success && trim(stdout@).len() > 0 ==> (r matches Some(n) && n@ == trim(stdout@)),
{
    if !success {
        return None;
    }
    let s = trim_string(stdout);
    if s.as_str().is_empty() {
        None
    } else {
        Some(s)
    }
}

/// The backends offered: `cpu` always, then `cuda` with an NVIDIA GPU.
pub open spec fn backends(nvidia: bool) -> Seq<Seq<char>> {
    if nvidia {
        seq!["cpu"@, "cuda"@]
    } else {
        seq!["cpu"@]
    }
}

/// The device report, given whether `nvidia-smi` was found and the GPU name it gave:
/// without it, no GPU and only `cpu`; with it, the queried name (or "NVIDIA GPU") and
/// `cpu` then `cuda`.
pub fn detect_devices(nvidia_smi_found: bool, queried_name: Option<String>) -> (d: DeviceInfo)
    ensures
        d.has_nvidia_gpu == nvidia_smi_found,
        !nvidia_smi_found ==> d.gpu_name@.len() == 0,
        nvidia_smi_found ==> d.gpu_name@ == (match queried_name {
            Some(n) => n@,
            None => "NVIDIA GPU"@,
        }),
        d.available@.map_values(|s: String| s@) == backends(nvidia_smi_found),
{
    let gpu_name = if nvidia_smi_found {
        match queried_name {
            Some(n) => n,
            None => owned("NVIDIA GPU"),
        }
    } else {
        String::new()
    };
    let mut available: Vec<String> = Vec::new();
    available.push(owned("cpu"));
    if nvidia_smi_found {
        available.push(owned("cuda"));
        assert(available@.map_values(|s: String| s@) =~= seq!["cpu"@, "cuda"@]);
    } else {
        assert(available@.map_values(|s: String| s@) =~= seq!["cpu"@]);
    }
    DeviceInfo { has_nvidia_gpu: nvidia_smi_found, gpu_name, available }
}

/// `cpu` is always offered, and offered first, whatever the GPU.
pub proof fn law_cpu_always_available(nvidia: bool)
    ensures
        backends(nvidia).len() >= 1,
        backends(nvidia)[0] == "cpu"@,
        backends(nvidia).contains("cpu"@),
{
    assert(backends(nvidia)[0] == "cpu"@);
}

} // verus!
