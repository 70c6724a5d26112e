//! FIPS compliance checks of a host: FIPS mode is on, the kernel's FIPS module
//! is the expected one, and the FIPS self-tests left their markers.
//!
//! A check looks at files of the host. [`SystemFiles`] holds the files that a
//! check may read (a path and its text); who fills it decides where the texts
//! come from.
use crate::text::{chars_eq, chars_of, contains_chars, contains_run, push_str, string_of};
use vstd::prelude::*;

verus! {

/// File holding `1` when FIPS mode is enabled.
pub const CRYPTO_FIPS_ENABLED: &'static str = "/proc/sys/crypto/fips_enabled";
/// Expected content of [`CRYPTO_FIPS_ENABLED`].
pub const EXPECTED_FIPS_ENABLED: &'static str = "1";
/// File naming the kernel's FIPS module.
pub const CRYPTO_FIPS_NAME: &'static str = "/proc/sys/crypto/fips_name";
/// Expected content of [`CRYPTO_FIPS_NAME`].
pub const EXPECTED_FIPS_NAME: &'static str = "Amazon Linux 2023 Kernel Cryptographic API";
/// Marker left by a passing kernel FIPS self-test.
pub const FIPS_KERNEL_CHECK_MARKER: &'static str = "/etc/.fips-kernel-check-passed";
/// Marker left by a passing module FIPS self-test.
pub const FIPS_MODULE_CHECK_MARKER: &'static str = "/etc/.fips-module-check-passed";

/// Outcome of a check.
#[derive(Clone, Copy, Debug, PartialEq, Eq, Structural)]
pub enum CheckStatus {
    PASS,
    FAIL,
    SKIP,
}

/// Whether a check runs by itself or needs a person.
#[derive(Clone, Copy, Debug, PartialEq, Eq, Structural)]
pub enum Mode {
    Automatic,
    Manual,
}

/// Result of running a check: its status and, unless it passed, why.
#[derive(Clone, Debug)]
pub struct CheckerResult {
    pub error: String,
    pub status: CheckStatus,
}

/// Description of a check.
#[derive(Clone, Debug)]
pub struct CheckerMetadata {
    pub title: String,
    pub id: String,
    pub level: u8,
    pub name: String,
    pub mode: Mode,
}

/// The files a check can see: for each registered path, its text.
pub struct SystemFiles {
    files: Vec<(String, String)>,
}

/// The files registered by a sequence of registrations (a later registration of
/// a path replaces an earlier one).
pub open spec fn files_map(entries: Seq<(String, String)>) -> Map<Seq<char>, Seq<char>>
    decreases entries.len(),
{
    if entries.len() == 0 {
        Map::empty()
    } else {
        files_map(entries.drop_last()).insert(entries.last().0@, entries.last().1@)
    }
}

proof fn lemma_files_map_tail(entries: Seq<(String, String)>, i: int, p: Seq<char>)
    requires
        0 <= i <= entries.len(),
        forall|k: int| i <= k < entries.len() ==> #[trigger] entries[k].0@ != p,
    ensures
        files_map(entries).contains_key(p) == files_map(entries.take(i)).contains_key(p),
        files_map(entries).contains_key(p) ==> files_map(entries)[p] == files_map(entries.take(i))[p],
    decreases entries.len() - i,
{
    if i < entries.len() {
        let e = entries.drop_last();
        assert(entries.take(i) =~= e.take(i));
        assert(entries.last().0@ != p);
        lemma_files_map_tail(e, i, p);
    } else {
        assert(entries.take(i) =~= entries);
    }
}

impl View for SystemFiles {
    type V = Map<Seq<char>, Seq<char>>;

    closed spec fn view(&self) -> Map<Seq<char>, Seq<char>> {
        files_map(self.files@)
    }
}

impl SystemFiles {
    /// No files.
    pub fn new() -> (r: SystemFiles)
        ensures
            r@ == Map::<Seq<char>, Seq<char>>::empty(),
    {
        SystemFiles { files: Vec::new() }
    }

    /// Makes `path` hold `contents`.
    pub fn register_file(&mut self, path: &str, contents: &str)
        ensures
            final(self)@ == old(self)@.insert(path@, contents@),
    {
        let ghost old_files = self.files@;
        self.files.push((string_of(path), string_of(contents)));
        assert(self.files@.drop_last() =~= old_files);
    }

    /// Whether `path` is registered.
    pub fn has_file(&self, path: &str) -> (r: bool)
        ensures
            r == self@.contains_key(path@),
    {
        self.read_file(path).is_some()
    }

    /// The text of `path`, if it is registered.
    pub fn read_file(&self, path: &str) -> (r: Option<String>)
        ensures
            match r {
                Some(t) => self@.contains_key(path@) && self@[path@] == t@,
                None => !self@.contains_key(path@),
            },
    {
        let p = chars_of(path);
        let mut i: usize = self.files.len();
        while i > 0
            invariant
                i <= self.files@.len(),
                p@ == path@,
                forall|k: int| i <= k < self.files@.len() ==> #[trigger] self.files@[k].0@ != path@,
            decreases i,
        {
            let entry = &self.files[i - 1];
            let name = chars_of(entry.0.as_str());
            if chars_eq(name.as_slice(), p.as_slice()) {
                proof {
                    lemma_files_map_tail(self.files@, i as int, path@);
                    assert(self.files@.take(i as int).drop_last() =~= self.files@.take(i - 1));
                    assert(self.files@.take(i as int).last() == self.files@[i - 1]);
                }
                return Some(entry.1.clone());
            }
            i = i - 1;
        }
        proof {
            lemma_files_map_tail(self.files@, 0, path@);
            assert(self.files@.take(0) =~= Seq::<(String, String)>::empty());
        }
        None
    }
}

impl Default for SystemFiles {
    fn default() -> (r: SystemFiles)
        ensures
            r@ == Map::<Seq<char>, Seq<char>>::empty(),
    {
        SystemFiles::new()
    }
}

/// Passes when `path` exists and its text contains `needle`; fails with
/// `fail_msg` when it does not contain it; is skipped with `missing_msg` when
/// the file does not exist.
pub fn check_file_contains(sac: &SystemFiles, path: &str, needle: &str, fail_msg: String, missing_msg: String) -> (r: CheckerResult)
    ensures
        !sac@.contains_key(path@) ==> r.status == CheckStatus::SKIP && r.error@ == missing_msg@,
        sac@.contains_key(path@) && contains_run(sac@[path@], needle@) ==> r.status == CheckStatus::PASS
            && r.error@ == Seq::<char>::empty(),
        sac@.contains_key(path@) && !contains_run(sac@[path@], needle@) ==> r.status == CheckStatus::FAIL
            && r.error@ == fail_msg@,
{
    match sac.read_file(path) {
        None => CheckerResult { error: missing_msg, status: CheckStatus::SKIP },
        Some(text) => {
            let t = chars_of(text.as_str());
            let n = chars_of(needle);
            if contains_chars(t.as_slice(), n.as_slice()) {
                CheckerResult { error: String::new(), status: CheckStatus::PASS }
            } else {
                CheckerResult { error: fail_msg, status: CheckStatus::FAIL }
            }
        },
    }
}

/// Passes when `path` exists, fails with `fail_msg` otherwise.
pub fn check_file_exists(sac: &SystemFiles, path: &str, fail_msg: String) -> (r: CheckerResult)
    ensures
        sac@.contains_key(path@) ==> r.status == CheckStatus::PASS && r.error@ == Seq::<char>::empty(),
        !sac@.contains_key(path@) ==> r.status == CheckStatus::FAIL && r.error@ == fail_msg@,
{
    if sac.has_file(path) {
        CheckerResult { error: String::new(), status: CheckStatus::PASS }
    } else {
        CheckerResult { error: fail_msg, status: CheckStatus::FAIL }
    }
}

fn joined(a: &str, b: &str) -> (r: String)
    ensures
        r@ == a@ + b@,
{
    let mut r = string_of(a);
    push_str(&mut r, b);
    r
}

/// FIPS mode is enabled.
pub struct FIPS01000000Checker {}

impl FIPS01000000Checker {
    /// Passes when the FIPS-enabled file contains `1`; fails when it does not;
    /// is skipped when the file is missing.
    pub fn execute(&self, sac: &SystemFiles) -> (r: CheckerResult)
        ensures
            !sac@.contains_key(CRYPTO_FIPS_ENABLED@) ==> r.status == CheckStatus::SKIP && r.error@
                == CRYPTO_FIPS_ENABLED@ + " not found"@,
            sac@.contains_key(CRYPTO_FIPS_ENABLED@) && contains_run(sac@[CRYPTO_FIPS_ENABLED@], EXPECTED_FIPS_ENABLED@)
                ==> r.status == CheckStatus::PASS && r.error@ == Seq::<char>::empty(),
            sac@.contains_key(CRYPTO_FIPS_ENABLED@) && !contains_run(sac@[CRYPTO_FIPS_ENABLED@], EXPECTED_FIPS_ENABLED@)
                ==> r.status == CheckStatus::FAIL && r.error@ == CRYPTO_FIPS_ENABLED@ + " != "@ + EXPECTED_FIPS_ENABLED@,
    {
        let fail = joined(CRYPTO_FIPS_ENABLED, " != ");
        let mut fail = fail;
        push_str(&mut fail, EXPECTED_FIPS_ENABLED);
        let missing = joined(CRYPTO_FIPS_ENABLED, " not found");
        check_file_contains(sac, CRYPTO_FIPS_ENABLED, EXPECTED_FIPS_ENABLED, fail, missing)
    }

    /// Describes the check.
    pub fn metadata(&self) -> (m: CheckerMetadata)
        ensures
            m.title@ == "FIPS mode is enabled."@,
            m.id@ == "1.0"@,
            m.level == 0,
            m.name@ == "fips01000000"@,
            m.mode == Mode::Automatic,
    {
        CheckerMetadata {
            title: string_of("FIPS mode is enabled."),
            id: string_of("1.0"),
            level: 0,
            name: string_of("fips01000000"),
            mode: Mode::Automatic,
        }
    }
}

/// The kernel's FIPS module is the expected one.
pub struct FIPS01010000Checker {}

impl FIPS01010000Checker {
    /// Passes when the FIPS-name file contains the expected module name; fails
    /// when it does not; is skipped when the file is missing.
    pub fn execute(&self, sac: &SystemFiles) -> (r: CheckerResult)
        ensures
            !sac@.contains_key(CRYPTO_FIPS_NAME@) ==> r.status == CheckStatus::SKIP && r.error@
                == CRYPTO_FIPS_NAME@ + " not found"@,
            sac@.contains_key(CRYPTO_FIPS_NAME@) && contains_run(sac@[CRYPTO_FIPS_NAME@], EXPECTED_FIPS_NAME@)
                ==> r.status == CheckStatus::PASS && r.error@ == Seq::<char>::empty(),
            sac@.contains_key(CRYPTO_FIPS_NAME@) && !contains_run(sac@[CRYPTO_FIPS_NAME@], EXPECTED_FIPS_NAME@)
                ==> r.status == CheckStatus::FAIL && r.error@ == CRYPTO_FIPS_NAME@ + " != '"@ + EXPECTED_FIPS_NAME@ + "'"@,
    {
        let mut fail = joined(CRYPTO_FIPS_NAME, " != '");
        push_str(&mut fail, EXPECTED_FIPS_NAME);
        push_str(&mut fail, "'");
        let missing = joined(CRYPTO_FIPS_NAME, " not found");
        check_file_contains(sac, CRYPTO_FIPS_NAME, EXPECTED_FIPS_NAME, fail, missing)
    }

    /// Describes the check.
    pub fn metadata(&self) -> (m: CheckerMetadata)
        ensures
            m.title@ == "FIPS module is "@ + EXPECTED_FIPS_NAME@ + "."@,
            m.id@ == "1.1"@,
            m.level == 0,
            m.name@ == "fips01010000"@,
            m.mode == Mode::Automatic,
    {
        let mut title = joined("FIPS module is ", EXPECTED_FIPS_NAME);
        push_str(&mut title, ".");
        CheckerMetadata {
            title,
            id: string_of("1.1"),
            level: 0,
            name: string_of("fips01010000"),
            mode: Mode::Automatic,
        }
    }
}

/// The FIPS self-tests passed.
pub struct FIPS01020000Checker {}

impl FIPS01020000Checker {
    /// Passes when both self-test markers exist; otherwise fails, naming the
    /// kernel marker when it is missing, else the module marker.
    pub fn execute(&self, sac: &SystemFiles) -> (r: CheckerResult)
        ensures
            !sac@.contains_key(FIPS_KERNEL_CHECK_MARKER@) ==> r.status == CheckStatus::FAIL && r.error@
                == FIPS_KERNEL_CHECK_MARKER@ + " not found"@,
            sac@.contains_key(FIPS_KERNEL_CHECK_MARKER@) && !sac@.contains_key(FIPS_MODULE_CHECK_MARKER@)
                ==> r.status == CheckStatus::FAIL && r.error@ == FIPS_MODULE_CHECK_MARKER@ + " not found"@,
            sac@.contains_key(FIPS_KERNEL_CHECK_MARKER@) && sac@.contains_key(FIPS_MODULE_CHECK_MARKER@)
                ==> r.status == CheckStatus::PASS && r.error@ == Seq::<char>::empty(),
    {
        let result = check_file_exists(sac, FIPS_KERNEL_CHECK_MARKER, joined(FIPS_KERNEL_CHECK_MARKER, " not found"));
        if result.status == CheckStatus::FAIL {
            return result;
        }
        check_file_exists(sac, FIPS_MODULE_CHECK_MARKER, joined(FIPS_MODULE_CHECK_MARKER, " not found"))
    }

    /// Describes the check.
    pub fn metadata(&self) -> (m: CheckerMetadata)
        ensures
            m.title@ == "FIPS self-tests passed."@,
            m.id@ == "1.2"@,
            m.level == 0,
            m.name@ == "fips01020000"@,
            m.mode == Mode::Automatic,
    {
        CheckerMetadata {
            title: string_of("FIPS self-tests passed."),
            id: string_of("1.2"),
            level: 0,
            name: string_of("fips01020000"),
            mode: Mode::Automatic,
        }
    }
}

} // verus!
