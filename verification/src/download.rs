//! Model download decisions: which address to use, which files to fetch, what progress
//! to report, and whether a newer remote catalog replaces the built-in one.
use vstd::prelude::*;
use crate::models::{AsrModel, ModelFile, ModelsCatalog};
use crate::text::{owned, concat3};

verus! {

/// Download progress of one model file.
pub struct DlProgress {
    pub model_id: String,
    pub file: String,
    pub done_bytes: u64,
    pub total_bytes: u64,
    /// 1-based index of the file.
    pub current_file_idx: usize,
    pub total_files: usize,
}

/// The address of a file: ModelScope first, then the fallback; none when both are empty.
pub fn pick_url(f: &ModelFile) -> (r: Option<String>)
    ensures
        f.url_ms@.len() > 0 ==> (r matches Some(u) && u@ == f.url_ms@),
        f.url_ms@.len() == 0 && f.url_hf@.len() > 0 ==> (r matches Some(u) && u@ == f.url_hf@),
        f.url_ms@.len() == 0 && f.url_hf@.len() == 0 ==> r is None,
{
    if !f.url_ms.as_str().is_empty() {
        Some(f.url_ms.clone())
    } else if !f.url_hf.as_str().is_empty() {
        Some(f.url_hf.clone())
    } else {
        None
    }
}

/// The remote catalog when it is newer than the local one.
pub fn check_catalog_update(local: &ModelsCatalog, remote: Option<ModelsCatalog>) -> (r: Option<
    ModelsCatalog,
>)
    ensures
        match remote {
            Some(c) => if c.version > local.version {
                r == Some(c)
            } else {
                r is None
            },
            None => r is None,
        },
{
    match remote {
        Some(c) => if c.version > local.version {
            Some(c)
        } else {
            None
        },
        None => None,
    }
}

/// What to do about one file of a model.
pub enum FileAction {
    /// It is there already.
    Skip,
    /// Fetch it from `url`, reporting `start` before and `done` after.
    Fetch { url: String, start: DlProgress, done: DlProgress },
    /// It cannot be fetched: the whole download stops with this error.
    Fail { message: String },
}

/// One mebibyte.
pub const MIB: u64 = 1048576;

/// A progress report for file `idx` of `model`.
pub fn progress(model: &AsrModel, idx: usize, done_bytes: u64) -> (p: DlProgress)
    requires
        idx < model.files.len(),
        model.files@[idx as int].size_mb * MIB <= u64::MAX,
    ensures
        p.model_id@ == model.id@,
        p.file@ == model.files@[idx as int].name@,
        p.done_bytes == done_bytes,
        p.total_bytes == model.files@[idx as int].size_mb * MIB,
        p.current_file_idx == idx + 1,
        p.total_files == model.files.len(),
{
    DlProgress {
        model_id: model.id.clone(),
        file: model.files[idx].name.clone(),
        done_bytes,
        total_bytes: model.files[idx].size_mb * MIB,
        current_file_idx: idx + 1,
        total_files: model.files.len(),
    }
}

/// The action for file `idx` of `model`, given whether it is already on disk: skip it;
/// fetch it from its address with progress reports at 0 and at its full size; or fail
/// with "模型 <file> 缺下载地址" when it has no address.
pub fn plan_file(model: &AsrModel, idx: usize, exists: bool) -> (a: FileAction)
    requires
        idx < model.files.len(),
        model.files@[idx as int].size_mb * MIB <= u64::MAX,
    ensures
        exists ==> a is Skip,
        !exists && model.files@[idx as int].url_ms@.len() == 0 && model.files@[idx as int].url_hf@.len() == 0
            ==> (a matches FileAction::Fail { message } && message@ == "模型 "@ + model.files@[idx as int].name@ + " 缺下载地址"@),
        !exists && (model.files@[idx as int].url_ms@.len() > 0 || model.files@[idx as int].url_hf@.len() > 0)
            ==> (a matches FileAction::Fetch { url, start, done } && url@ == (if model.files@[idx as int].url_ms@.len() > 0 {
                model.files@[idx as int].url_ms@
            } else {
                model.files@[idx as int].url_hf@
            }) && start.model_id@ == model.id@ && start.file@ == model.files@[idx as int].name@
                && start.done_bytes == 0 && start.total_bytes == model.files@[idx as int].size_mb * MIB
                && start.current_file_idx == idx + 1 && start.total_files == model.files.len()
                && done.model_id@ == model.id@ && done.file@ == model.files@[idx as int].name@
                && done.done_bytes == model.files@[idx as int].size_mb * MIB && done.total_bytes
                == model.files@[idx as int].size_mb * MIB && done.current_file_idx == idx + 1
                && done.total_files == model.files.len()),
{
    if exists {
        return FileAction::Skip;
    }
    let f = &model.files[idx];
    match pick_url(f) {
        None => FileAction::Fail { message: concat3("模型 ", f.name.as_str(), " 缺下载地址") },
        Some(url) => {
            let full = f.size_mb * MIB;
            FileAction::Fetch { url, start: progress(model, idx, 0), done: progress(model, idx, full) }
        },
    }
}

/// `s` ends with `suffix`.
pub open spec fn ends_with(s: Seq<char>, suffix: Seq<char>) -> bool {
    s.len() >= suffix.len() && s.subrange(s.len() - suffix.len(), s.len() as int) == suffix
}

/// Whether `s` ends with `suffix`.
pub fn str_ends_with(s: &str, suffix: &str) -> (r: bool)
    ensures
        r == ends_with(s@, suffix@),
{
    let a = crate::text::chars_of(s);
    let b = crate::text::chars_of(suffix);
    if a.len() < b.len() {
        return false;
    }
    let off = a.len() - b.len();
    let mut i: usize = 0;
    while i < b.len()
        invariant
            off + b.len() == a.len(),
            a@ == s@,
            b@ == suffix@,
            i <= b.len(),
            forall|j: int| 0 <= j < i ==> a@[off + j] == b@[j],
        decreases b.len() - i,
    {
        if a[off + i] != b[i] {
            let ghost t = a@.subrange(off as int, a.len() as int);
            assert(t[i as int] == a@[off + i]);
            assert(t[i as int] != b@[i as int]);
            assert(t != b@);
            return false;
        }
        i = i + 1;
    }
    assert(a@.subrange(off as int, a.len() as int) =~= b@);
    true
}

/// After the files are fetched: a model marked `extract_tar` whose first file is on
/// disk and named `*.tar.bz2` is unpacked into its directory (and the archive removed).
pub fn needs_unpack(model: &AsrModel, first_exists: bool) -> (r: bool)
    ensures
        r == (model.extract_tar && model.files.len() > 0 && first_exists && ends_with(
            model.files@[0].name@,
            ".tar.bz2"@,
        )),
{
    model.extract_tar && model.files.len() > 0 && first_exists && str_ends_with(
        model.files[0].name.as_str(),
        ".tar.bz2",
    )
}

} // verus!
