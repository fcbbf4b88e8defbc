//! What a conversion wrote, and where the saves went.
use super::convert::OutputOptions;
use crate::save::SaveFormat;
use crate::text::decimal;
use vstd::prelude::*;
use vstd::string::StringExecFns;

verus! {

/// The formats that are selected, worlds before prefabs.
pub open spec fn formats(out: OutputOptions) -> Seq<SaveFormat> {
    (if out.brdb {
        seq![SaveFormat::Brdb]
    } else {
        Seq::empty()
    }) + (if out.brz {
        seq![SaveFormat::Brz]
    } else {
        Seq::empty()
    })
}

/// The formats to write, in order.
pub fn selected_formats(out: OutputOptions) -> (list: Vec<SaveFormat>)
    ensures
        list@ == formats(out),
{
    let mut list: Vec<SaveFormat> = Vec::new();
    if out.brdb {
        list.push(SaveFormat::Brdb);
    }
    if out.brz {
        list.push(SaveFormat::Brz);
    }
    assert(list@ =~= formats(out));
    list
}

/// The file name that an install tries as its `attempt`-th: the save's own, then `-2`, `-3`, …
/// after the stem.
pub open spec fn attempted(stem: Seq<char>, ext: Seq<char>, attempt: nat) -> Seq<char> {
    let name = if attempt <= 1 {
        stem
    } else {
        stem + "-"@ + crate::text::decimal_chars(attempt)
    };
    name + "."@ + ext
}

/// The name to install a save under without overwriting another, where the attempts before this one
/// met a file.
pub fn installed_name(stem: &str, ext: &str, attempt: u64) -> (name: String)
    ensures
        name@ == attempted(stem@, ext@, attempt as nat),
{
    let mut name: String = stem.to_owned();
    if attempt > 1 {
        name.append("-");
        name.append(decimal(attempt).as_str());
    }
    name.append(".");
    name.append(ext);
    name
}

/// Result of staging + installing the selected formats: the `.brdb` path (if
/// written), any additional staged paths (e.g. `.brz`), the first installed
/// destination, and a non-fatal warning if an install was skipped.
pub struct WriteResult {
    pub brdb_path: Option<String>,
    pub extra_paths: Vec<String>,
    pub installed_path: Option<String>,
    pub install_warning: Option<String>,
}

/// The warning about a save that could not be installed.
pub open spec fn skipped_text(path: Seq<char>, reason: Seq<char>, dir: Seq<char>) -> Seq<char> {
    "install of "@ + path + " skipped ("@ + reason + ") — the save remains in "@ + dir
}

impl WriteResult {
    /// Nothing written yet.
    pub fn new() -> (result: Self)
        ensures
            result.brdb_path is None,
            result.extra_paths@.len() == 0,
            result.installed_path is None,
            result.install_warning is None,
    {
        WriteResult {
            brdb_path: None,
            extra_paths: Vec::new(),
            installed_path: None,
            install_warning: None,
        }
    }

    /// Note a save that was written to `path` in the directory `dir`, and what came of installing
    /// it, if that was asked for. The first destination and the first skipped install are kept; a
    /// failed install is not fatal, since the save is already on disk.
    pub fn record(
        &mut self,
        format: SaveFormat,
        path: String,
        dir: &str,
        install: Option<Result<String, String>>,
    )
        ensures
            format is Brdb ==> final(self).brdb_path == Some(path) && final(self).extra_paths@
                == old(self).extra_paths@,
            format is Brz ==> final(self).brdb_path == old(self).brdb_path && final(
                self).extra_paths@ == old(self).extra_paths@.push(path),
            final(self).installed_path == match install {
                Some(Ok(dest)) => if old(self).installed_path is None {
                    Some(dest)
                } else {
                    old(self).installed_path
                },
                _ => old(self).installed_path,
            },
            match install {
                Some(Err(e)) if old(self).install_warning is None => {
                    final(self).install_warning matches Some(w) && w@ == skipped_text(
                        path@,
                        e@,
                        dir@,
                    )
                },
                _ => final(self).install_warning == old(self).install_warning,
            },
    {
        match install {
            Some(Ok(dest)) => {
                if self.installed_path.is_none() {
                    self.installed_path = Some(dest);
                }
            },
            Some(Err(e)) => {
                if self.install_warning.is_none() {
                    let mut text: String = "install of ".to_owned();
                    text.append(path.as_str());
                    text.append(" skipped (");
                    text.append(e.as_str());
                    text.append(") — the save remains in ");
                    text.append(dir);
                    self.install_warning = Some(text);
                }
            },
            None => {},
        }
        match format {
            SaveFormat::Brdb => {
                self.brdb_path = Some(path);
            },
            SaveFormat::Brz => {
                self.extra_paths.push(path);
            },
        }
    }

    /// The path to show: the world's, or the first other one where no world was written.
    pub fn primary_path(&self) -> (path: String)
        ensures
            path@ == match self.brdb_path {
                Some(p) => p@,
                None => if self.extra_paths@.len() > 0 {
                    self.extra_paths@[0]@
                } else {
                    Seq::empty()
                },
            },
    {
        match &self.brdb_path {
            Some(p) => p.clone(),
            None => {
                if self.extra_paths.len() > 0 {
                    self.extra_paths[0].clone()
                } else {
                    String::new()
                }
            },
        }
    }
}

/// Installs never try a name twice: the first is the save's own, and each later one has its number in it.
pub proof fn attempts_differ(stem: Seq<char>, ext: Seq<char>, a: nat, b: nat)
    requires
        1 <= a < b,
    ensures
        attempted(stem, ext, 1) == stem + "."@ + ext,
        attempted(stem, ext, b) == stem + "-"@ + crate::text::decimal_chars(b) + "."@ + ext,
        attempted(stem, ext, a) != attempted(stem, ext, b),
{
    reveal_strlit("-");
    reveal_strlit(".");
    crate::units::written_numbers_read_back(a, 0);
    crate::units::written_numbers_read_back(b, 0);
    let (s, t) = (attempted(stem, ext, a), attempted(stem, ext, b));
    let n = stem.len() as int;
    if s == t {
        assert(t[n] == '-');
        if a == 1 {
            assert(s[n] == '.');
        } else {
            let (p, q) = (crate::text::decimal_chars(a), crate::text::decimal_chars(b));
            assert(s.len() == n + 1 + p.len() + 1 + ext.len());
            assert(t.len() == n + 1 + q.len() + 1 + ext.len());
            assert(p =~= s.subrange(n + 1, n + 1 + p.len() as int));
            assert(q =~= t.subrange(n + 1, n + 1 + q.len() as int));
        }
    }
}

} // verus!
