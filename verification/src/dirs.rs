//! Where the node keeps its databases, keys, signer data and dapps.
//!
//! Paths are built here as plain strings; creating the directories on disk
//! and substituting the real home directory are the caller's concern.

use vstd::prelude::*;
use vstd::string::StringExecFns;

verus! {

/// A base path joined with one further component.
pub open spec fn joined(base: Seq<char>, leaf: Seq<char>) -> Seq<char> {
    base + "/"@ + leaf
}

/// Joins a base path and one further component with a separator.
pub fn join_path(base: &str, leaf: &str) -> (r: String)
    ensures
        r@ == joined(base@, leaf@),
{
    let mut s = base.to_owned();
    s.append("/");
    s.append(leaf);
    s
}

/// The journal pruning algorithm a database directory is keyed by.
#[derive(Clone, Copy, Debug, PartialEq, Eq, Structural)]
pub enum Algorithm {
    Archive,
    EarlyMerge,
    OverlayRecent,
    RefCounted,
}

/// The name under which each pruning algorithm appears in database paths.
pub open spec fn algorithm_name(a: Algorithm) -> Seq<char> {
    match a {
        Algorithm::Archive => "archive"@,
        Algorithm::EarlyMerge => "earlymerge"@,
        Algorithm::OverlayRecent => "overlayrecent"@,
        Algorithm::RefCounted => "refcounted"@,
    }
}

impl Algorithm {
    /// This algorithm's name as it appears in database paths.
    pub fn as_internal_name_str(&self) -> (r: &'static str)
        ensures
            r@ == algorithm_name(*self),
    {
        match self {
            Algorithm::Archive => "archive",
            Algorithm::EarlyMerge => "earlymerge",
            Algorithm::OverlayRecent => "overlayrecent",
            Algorithm::RefCounted => "refcounted",
        }
    }
}

/// The lowercase hex digit for a value below sixteen.
pub open spec fn hex_digit(n: u8) -> char {
    if n == 0 {
        '0'
    } else if n == 1 {
        '1'
    } else if n == 2 {
        '2'
    } else if n == 3 {
        '3'
    } else if n == 4 {
        '4'
    } else if n == 5 {
        '5'
    } else if n == 6 {
        '6'
    } else if n == 7 {
        '7'
    } else if n == 8 {
        '8'
    } else if n == 9 {
        '9'
    } else if n == 10 {
        'a'
    } else if n == 11 {
        'b'
    } else if n == 12 {
        'c'
    } else if n == 13 {
        'd'
    } else if n == 14 {
        'e'
    } else {
        'f'
    }
}

/// The lowercase hex spelling of a byte sequence, two digits per byte.
pub open spec fn hex_of(b: Seq<u8>) -> Seq<char>
    decreases b.len(),
{
    if b.len() == 0 {
        Seq::empty()
    } else {
        hex_of(b.drop_last()) + seq![hex_digit(b.last() / 16), hex_digit(b.last() % 16)]
    }
}

/// The one-character string holding the hex digit for `n`.
fn hex_char_str(n: u8) -> (r: &'static str)
    requires
        n < 16,
    ensures
        r@ == seq![hex_digit(n)],
{
    let r: &'static str = if n == 0 {
        "0"
    } else if n == 1 {
        "1"
    } else if n == 2 {
        "2"
    } else if n == 3 {
        "3"
    } else if n == 4 {
        "4"
    } else if n == 5 {
        "5"
    } else if n == 6 {
        "6"
    } else if n == 7 {
        "7"
    } else if n == 8 {
        "8"
    } else if n == 9 {
        "9"
    } else if n == 10 {
        "a"
    } else if n == 11 {
        "b"
    } else if n == 12 {
        "c"
    } else if n == 13 {
        "d"
    } else if n == 14 {
        "e"
    } else {
        "f"
    };
    proof {
        reveal_strlit("0");
        reveal_strlit("1");
        reveal_strlit("2");
        reveal_strlit("3");
        reveal_strlit("4");
        reveal_strlit("5");
        reveal_strlit("6");
        reveal_strlit("7");
        reveal_strlit("8");
        reveal_strlit("9");
        reveal_strlit("a");
        reveal_strlit("b");
        reveal_strlit("c");
        reveal_strlit("d");
        reveal_strlit("e");
        reveal_strlit("f");
        assert(r@ =~= seq![hex_digit(n)]);
    }
    r
}

/// Spells a byte sequence as lowercase hex, two digits per byte.
pub fn hex_str(bytes: &[u8]) -> (r: String)
    ensures
        r@ == hex_of(bytes@),
{
    let mut out = String::new();
    let mut i: usize = 0;
    while i < bytes.len()
        invariant
            i <= bytes.len(),
            out@ == hex_of(bytes@.take(i as int)),
        decreases bytes.len() - i,
    {
        let b = bytes[i];
        out.append(hex_char_str(b / 16));
        out.append(hex_char_str(b % 16));
        i += 1;
        proof {
            assert(bytes@.take(i as int).drop_last() =~= bytes@.take(i - 1));
            assert(bytes@.take(i as int).last() == bytes@[i - 1]);
            assert(out@ =~= hex_of(bytes@.take(i as int)));
        }
    }
    proof {
        assert(bytes@.take(bytes@.len() as int) =~= bytes@);
    }
    out
}

/// The directories the node works in.
#[derive(Debug, Clone)]
pub struct Directories {
    pub db: String,
    pub keys: String,
    pub signer: String,
    pub dapps: String,
}

impl PartialEq for Directories {
    fn eq(&self, other: &Directories) -> (r: bool) {
        let r = self.db == other.db && self.keys == other.keys && self.signer == other.signer
            && self.dapps == other.dapps;
        r
    }
}

impl vstd::std_specs::cmp::PartialEqSpecImpl for Directories {
    open spec fn obeys_eq_spec() -> bool {
        true
    }

    open spec fn eq_spec(&self, other: &Directories) -> bool {
        &&& self.db@ == other.db@
        &&& self.keys@ == other.keys@
        &&& self.signer@ == other.signer@
        &&& self.dapps@ == other.dapps@
    }
}

impl Default for Directories {
    /// The default layout, with `$HOME` left for the caller to substitute.
    fn default() -> (r: Directories)
        ensures
            r.db@ == "$HOME/.parity"@,
            r.keys@ == "$HOME/.parity/keys"@,
            r.signer@ == "$HOME/.parity/signer"@,
            r.dapps@ == "$HOME/.parity/dapps"@,
    {
        Directories {
            db: "$HOME/.parity".to_owned(),
            keys: "$HOME/.parity/keys".to_owned(),
            signer: "$HOME/.parity/signer".to_owned(),
            dapps: "$HOME/.parity/dapps".to_owned(),
        }
    }
}

impl Directories {
    /// Get the root path for the database: the db directory, the hex of the
    /// genesis hash's first eight bytes with an optional fork suffix, and the
    /// versioned, pruning-keyed leaf.
    pub fn db_version_path(&self, genesis_hash: &Vec<u8>, fork_name: Option<&String>, pruning: Algorithm) -> (r:
        String)
        requires
            genesis_hash@.len() >= 8,
        ensures
            r@ == joined(
                joined(
                    self.db@,
                    hex_of(genesis_hash@.take(8)) + (match fork_name {
                        Some(f) => "-"@ + f@,
                        None => Seq::<char>::empty(),
                    }),
                ),
                "v5.3-sec-"@ + algorithm_name(pruning),
            ),
    {
        let mut mid = hex_str(vstd::slice::slice_subrange(genesis_hash.as_slice(), 0, 8));
        match fork_name {
            Some(f) => {
                mid.append("-");
                mid.append(f.as_str());
            },
            None => {
                proof {
                    assert(mid@ + Seq::<char>::empty() =~= mid@);
                }
            },
        }
        // "5.3" is the legacy client database version, kept for backwards
        // compatibility with existing directory layouts.
        let mut leaf = "v5.3-sec-".to_owned();
        leaf.append(pruning.as_internal_name_str());
        let base = join_path(self.db.as_str(), mid.as_str());
        join_path(base.as_str(), leaf.as_str())
    }

    /// Get the path for the databases, given the genesis hash and the
    /// information on the database.
    pub fn client_path(&self, genesis_hash: &Vec<u8>, fork_name: Option<&String>, pruning: Algorithm) -> (r:
        String)
        requires
            genesis_hash@.len() >= 8,
        ensures
            r@ == joined(
                joined(
                    joined(
                        self.db@,
                        hex_of(genesis_hash@.take(8)) + (match fork_name {
                            Some(f) => "-"@ + f@,
                            None => Seq::<char>::empty(),
                        }),
                    ),
                    "v5.3-sec-"@ + algorithm_name(pruning),
                ),
                "db"@,
            ),
    {
        let dir = self.db_version_path(genesis_hash, fork_name, pruning);
        join_path(dir.as_str(), "db")
    }

    /// Get the ipc sockets path.
    pub fn ipc_path(&self) -> (r: String)
        ensures
            r@ == joined(self.db@, "ipc"@),
    {
        join_path(self.db.as_str(), "ipc")
    }

    /// Get the user defaults path, keyed by the fork name when there is one.
    pub fn user_defaults_path(&self, fork_name: &Option<String>) -> (r: String)
        ensures
            r@ == (match fork_name {
                Some(name) => joined(self.db@, "user_defaults_"@ + name@),
                None => joined(self.db@, "user_defaults"@),
            }),
    {
        match fork_name {
            Some(name) => {
                let mut leaf = "user_defaults_".to_owned();
                leaf.append(name.as_str());
                join_path(self.db.as_str(), leaf.as_str())
            },
            None => join_path(self.db.as_str(), "user_defaults"),
        }
    }

    /// Substitutes `home` for a leading `$HOME` in every directory; a path
    /// without that prefix is kept as it is.
    pub fn with_home(&self, home: &str) -> (r: Directories)
        ensures
            r.db@ == home_substituted(self.db@, home@),
            r.keys@ == home_substituted(self.keys@, home@),
            r.signer@ == home_substituted(self.signer@, home@),
            r.dapps@ == home_substituted(self.dapps@, home@),
    {
        Directories {
            db: replace_home(self.db.as_str(), home),
            keys: replace_home(self.keys.as_str(), home),
            signer: replace_home(self.signer.as_str(), home),
            dapps: replace_home(self.dapps.as_str(), home),
        }
    }
}

/// `path` with a leading `$HOME` replaced by `home`; unchanged if the prefix
/// is absent.
pub open spec fn home_substituted(path: Seq<char>, home: Seq<char>) -> Seq<char> {
    if path.len() >= 5 && path.subrange(0, 5) == "$HOME"@ {
        home + path.skip(5)
    } else {
        path
    }
}

/// Replaces a leading `$HOME` in `path` by `home`.
pub fn replace_home(path: &str, home: &str) -> (r: String)
    ensures
        r@ == home_substituted(path@, home@),
{
    proof {
        reveal_strlit("$HOME");
    }
    let n = path.unicode_len();
    if n < 5 {
        return path.to_owned();
    }
    let mut has_prefix = true;
    let marker = "$HOME";
    let mut i: usize = 0;
    while i < 5
        invariant
            i <= 5,
            n == path@.len(),
            n >= 5,
            marker@ == "$HOME"@,
            marker@.len() == 5,
            has_prefix == (forall|j: int| 0 <= j < i ==> path@[j] == marker@[j]),
        decreases 5 - i,
    {
        let c = path.get_char(i);
        let m = marker.get_char(i);
        let ghost old_has = has_prefix;
        if c != m {
            has_prefix = false;
        }
        proof {
            if has_prefix {
                assert(forall|j: int| 0 <= j < i + 1 ==> path@[j] == marker@[j]);
            } else {
                if old_has {
                    assert(path@[i as int] != marker@[i as int]);
                }
                assert(!(forall|j: int| 0 <= j < i + 1 ==> path@[j] == marker@[j]));
            }
        }
        i += 1;
    }
    if has_prefix {
        proof {
            assert(path@.subrange(0, 5) =~= "$HOME"@);
        }
        let rest = path.substring_char(5, n);
        let mut out = home.to_owned();
        out.append(rest);
        proof {
            assert(path@.skip(5) =~= path@.subrange(5, path@.len() as int));
        }
        out
    } else {
        proof {
            assert(path@.subrange(0, 5) != "$HOME"@) by {
                let k = choose|j: int| 0 <= j < 5 && path@[j] != marker@[j];
                assert(path@.subrange(0, 5)[k] == path@[k]);
            }
        }
        path.to_owned()
    }
}

} // verus!
