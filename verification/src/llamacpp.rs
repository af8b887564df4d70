//! The llama.cpp speech-recognition CLIs: where to find one, and how to call it.
use vstd::prelude::*;
use crate::text::{owned, concat2, join_path, path_join, str_views, chars_of, trim, trim_string};

verus! {

/// A located llama.cpp CLI.
pub struct LlamaCli {
    bin: String,
    cli_name: String,
}

impl View for LlamaCli {
    type V = (Seq<char>, Seq<char>);

    /// (executable path, CLI name)
    closed spec fn view(&self) -> (Seq<char>, Seq<char>) {
        (self.bin@, self.cli_name@)
    }
}

/// The executable's file name: `<cli>.exe` on Windows, `<cli>` elsewhere.
pub open spec fn exe_name_spec(cli_name: Seq<char>, windows: bool) -> Seq<char> {
    if windows {
        cli_name + ".exe"@
    } else {
        cli_name
    }
}

/// Where a CLI is looked for, in order: with `prefer_cuda`,
/// `<manifest>/dev-models/bin-cuda`; then `<manifest>/dev-models/bin`; then, when the
/// running executable's directory is known, that directory and its `binaries`
/// subdirectory.
pub open spec fn candidates_spec(
    cli_name: Seq<char>,
    prefer_cuda: bool,
    manifest_dir: Seq<char>,
    exe_dir: Option<Seq<char>>,
    windows: bool,
) -> Seq<Seq<char>> {
    let exe = exe_name_spec(cli_name, windows);
    let base = path_join(manifest_dir, "dev-models"@, windows);
    let first = if prefer_cuda {
        seq![path_join(path_join(base, "bin-cuda"@, windows), exe, windows)]
    } else {
        seq![]
    };
    let second = seq![path_join(path_join(base, "bin"@, windows), exe, windows)];
    let third = match exe_dir {
        Some(d) => seq![path_join(d, exe, windows), path_join(path_join(d, "binaries"@, windows), exe, windows)],
        None => seq![],
    };
    first + second + third
}

/// The first candidate that is a file.
pub open spec fn first_existing(cands: Seq<Seq<char>>, is_file: Seq<bool>) -> Option<Seq<char>>
    decreases cands.len(),
{
    if cands.len() == 0 || is_file.len() == 0 {
        None
    } else if is_file[0] {
        Some(cands[0])
    } else {
        first_existing(cands.drop_first(), is_file.drop_first())
    }
}

impl LlamaCli {
    /// The paths where `cli_name` is looked for (see `candidates_spec`).
    pub fn candidates(
        cli_name: &str,
        prefer_cuda: bool,
        manifest_dir: &str,
        exe_dir: Option<&str>,
        windows: bool,
    ) -> (r: Vec<String>)
        ensures
            str_views(r@) == candidates_spec(
                cli_name@,
                prefer_cuda,
                manifest_dir@,
                match exe_dir {
                    Some(d) => Some(d@),
                    None => None,
                },
                windows,
            ),
    {
        let exe = if windows {
            concat2(cli_name, ".exe")
        } else {
            owned(cli_name)
        };
        let base = join_path(manifest_dir, "dev-models", windows);
        let mut r: Vec<String> = Vec::new();
        if prefer_cuda {
            let d = join_path(base.as_str(), "bin-cuda", windows);
            r.push(join_path(d.as_str(), exe.as_str(), windows));
        }
        let d = join_path(base.as_str(), "bin", windows);
        r.push(join_path(d.as_str(), exe.as_str(), windows));
        match exe_dir {
            Some(dir) => {
                r.push(join_path(dir, exe.as_str(), windows));
                let b = join_path(dir, "binaries", windows);
                r.push(join_path(b.as_str(), exe.as_str(), windows));
            },
            None => {},
        }
        assert(str_views(r@) =~= candidates_spec(
            cli_name@,
            prefer_cuda,
            manifest_dir@,
            match exe_dir {
                Some(d) => Some(d@),
                None => None,
            },
            windows,
        ));
        r
    }

    /// The CLI at the first candidate that is a file (`is_file[i]` tells whether
    /// `candidates[i]` is one), if any.
    pub fn find(cli_name: &str, candidates: &Vec<String>, is_file: &Vec<bool>) -> (r: Option<Self>)
        requires
            candidates.len() == is_file.len(),
        ensures
            match r {
                Some(c) => first_existing(str_views(candidates@), is_file@) == Some(c@.0)
                    && c@.1 == cli_name@,
                None => first_existing(str_views(candidates@), is_file@) is None,
            },
    {
        let ghost cv = str_views(candidates@);
        let mut i: usize = 0;
        assert(cv.skip(0) =~= cv);
        assert(is_file@.skip(0) =~= is_file@);
        while i < candidates.len()
            invariant
                i <= candidates.len(),
                candidates.len() == is_file.len(),
                cv == str_views(candidates@),
                first_existing(cv, is_file@) == first_existing(cv.skip(i as int), is_file@.skip(i as int)),
            decreases candidates.len() - i,
        {
            if is_file[i] {
                assert(cv.skip(i as int)[0] == candidates@[i as int]@);
                return Some(LlamaCli { bin: candidates[i].clone(), cli_name: owned(cli_name) });
            }
            assert(cv.skip(i as int).drop_first() =~= cv.skip(i + 1));
            assert(is_file@.skip(i as int).drop_first() =~= is_file@.skip(i + 1));
            i = i + 1;
        }
        assert(cv.skip(i as int) =~= Seq::<Seq<char>>::empty());
        None
    }

    /// The executable's path.
    pub fn bin_path(&self) -> (r: &str)
        ensures
            r@ == self@.0,
    {
        self.bin.as_str()
    }

    /// The CLI's name.
    pub fn cli_name(&self) -> (r: &str)
        ensures
            r@ == self@.1,
    {
        self.cli_name.as_str()
    }

    /// The command-line arguments of a transcription run (see `transcribe_args_spec`).
    pub fn transcribe_args(
        &self,
        model_files: &Vec<String>,
        vad_path: Option<&str>,
        wav_path: &str,
        backend: &str,
        lang: &str,
    ) -> (r: Vec<String>)
        ensures
            str_views(r@) == transcribe_args_spec(
                str_views(model_files@),
                match vad_path {
                    Some(v) => Some(v@),
                    None => None,
                },
                wav_path@,
                backend@,
                lang@,
                self@.1,
            ),
    {
        let mut r: Vec<String> = Vec::new();
        let mut i: usize = 0;
        while i < model_files.len()
            invariant
                i <= model_files.len(),
                str_views(r@) == str_views(model_files@).take(i as int),
            decreases model_files.len() - i,
        {
            let ghost prev = str_views(r@);
            r.push(model_files[i].clone());
            assert(str_views(r@) =~= prev.push(model_files@[i as int]@));
            assert(str_views(model_files@).take(i + 1) =~= str_views(model_files@).take(i as int).push(model_files@[i as int]@));
            i = i + 1;
        }
        assert(str_views(model_files@).take(i as int) =~= str_views(model_files@));
        let ghost a = str_views(r@);
        r.push(owned("-a"));
        r.push(owned(wav_path));
        let ghost b = str_views(r@);
        assert(b =~= a + seq!["-a"@, wav_path@]);
        match vad_path {
            Some(v) => {
                r.push(owned("--vad"));
                r.push(owned(v));
            },
            None => {},
        }
        let ghost c = str_views(r@);
        if !lang.is_empty() {
            r.push(owned("--lang"));
            r.push(owned(lang));
        }
        let ghost d = str_views(r@);
        if contains_sub(self.cli_name.as_str(), "sensevoice") {
            r.push(owned("--backend"));
            r.push(owned(backend));
        }
        assert(str_views(r@) =~= transcribe_args_spec(
            str_views(model_files@),
            match vad_path {
                Some(v) => Some(v@),
                None => None,
            },
            wav_path@,
            backend@,
            lang@,
            self.cli_name@,
        ));
        r
    }
}

/// `needle` occurs in `s`.
pub open spec fn has_sub(s: Seq<char>, needle: Seq<char>) -> bool {
    exists|i: int| 0 <= i && i + needle.len() <= s.len() && #[trigger] s.subrange(i, i + needle.len()) == needle
}

/// Whether `needle` occurs in `s`.
pub fn contains_sub(s: &str, needle: &str) -> (r: bool)
    ensures
        r == has_sub(s@, needle@),
{
    let a = chars_of(s);
    let b = chars_of(needle);
    if b.len() > a.len() {
        proof {
            if has_sub(s@, needle@) {
                let i = choose|i: int| 0 <= i && i + needle@.len() <= s@.len() && #[trigger] s@.subrange(i, i + needle@.len()) == needle@;
            }
        }
        return false;
    }
    let mut i: usize = 0;
    while i <= a.len() - b.len()
        invariant
            a@ == s@,
            b@ == needle@,
            b.len() <= a.len(),
            i <= a.len() - b.len() + 1,
            forall|k: int| 0 <= k < i ==> #[trigger] a@.subrange(k, k + b.len()) != b@,
        decreases a.len() - b.len() + 1 - i,
    {
        let mut j: usize = 0;
        while j < b.len() && a[i + j] == b[j]
            invariant
                a@ == s@,
                b@ == needle@,
                b.len() <= a.len(),
                i <= a.len() - b.len(),
                j <= b.len(),
                forall|q: int| 0 <= q < j ==> a@[i + q] == b@[q],
            decreases b.len() - j,
        {
            j = j + 1;
        }
        if j == b.len() {
            assert(a@.subrange(i as int, i + b.len()) =~= b@);
            return true;
        }
        assert(a@.subrange(i as int, i + b.len())[j as int] != b@[j as int]);
        i = i + 1;
    }
    proof {
        if has_sub(s@, needle@) {
            let k = choose|k: int| 0 <= k && k + needle@.len() <= s@.len() && #[trigger] s@.subrange(k, k + needle@.len()) == needle@;
            assert(a@.subrange(k, k + b.len()) == b@);
        }
    }
    false
}

/// The arguments of a transcription run: the model arguments, `-a <wav>`, then
/// `--vad <path>` with a VAD model, `--lang <lang>` with a language, and
/// `--backend <backend>` for SenseVoice CLIs only.
pub open spec fn transcribe_args_spec(
    model_files: Seq<Seq<char>>,
    vad: Option<Seq<char>>,
    wav: Seq<char>,
    backend: Seq<char>,
    lang: Seq<char>,
    cli_name: Seq<char>,
) -> Seq<Seq<char>> {
    model_files + seq!["-a"@, wav] + (match vad {
        Some(v) => seq!["--vad"@, v],
        None => seq![],
    }) + (if lang.len() > 0 {
        seq!["--lang"@, lang]
    } else {
        seq![]
    }) + (if has_sub(cli_name, "sensevoice"@) {
        seq!["--backend"@, backend]
    } else {
        seq![]
    })
}

/// A line read from the CLI, trimmed; blank lines are dropped.
pub fn cli_line(raw: &str) -> (r: Option<String>)
    ensures
        trim(raw@).len() == 0 ==> r is None,
        trim(raw@).len() > 0 ==> (r matches Some(t) && t@ == trim(raw@)),
{
    let t = trim_string(raw);
    if t.as_str().is_empty() {
        None
    } else {
        Some(t)
    }
}


/// The outcome of a CLI run: "已取消" when it was cancelled, "转写进程异常退出" when it
/// exited with a failure status, else success.
pub fn cli_outcome(cancelled: bool, exit_ok: bool) -> (r: Result<(), String>)
    ensures
        cancelled ==> (r matches Err(e) && e@ == "已取消"@),
        !cancelled && !exit_ok ==> (r matches Err(e) && e@ == "转写进程异常退出"@),
        !cancelled && exit_ok ==> r is Ok,
{
    if cancelled {
        Err(owned("已取消"))
    } else if !exit_ok {
        Err(owned("转写进程异常退出"))
    } else {
        Ok(())
    }
}

} // verus!
