//! Resolved listener settings and their validation.

use vstd::prelude::*;
use crate::text::{str_chars, chars_string};

verus! {

/// Subscription mode: program logs or account updates.
#[derive(Debug, Clone, Copy, PartialEq, Eq)]
pub enum Mode {
    Logs,
    Account,
}

/// Commitment level passed through unchanged to every subscribe request.
#[derive(Debug, Clone, Copy, PartialEq, Eq)]
pub enum Commitment {
    Processed,
    Confirmed,
    Finalized,
}

/// The wire spelling of a mode.
pub open spec fn mode_text(m: Mode) -> Seq<char> {
    match m {
        Mode::Logs => seq!['l', 'o', 'g', 's'],
        Mode::Account => seq!['a', 'c', 'c', 'o', 'u', 'n', 't'],
    }
}

/// The wire spelling of a commitment level.
pub open spec fn commitment_text(c: Commitment) -> Seq<char> {
    match c {
        Commitment::Processed => seq!['p', 'r', 'o', 'c', 'e', 's', 's', 'e', 'd'],
        Commitment::Confirmed => seq!['c', 'o', 'n', 'f', 'i', 'r', 'm', 'e', 'd'],
        Commitment::Finalized => seq!['f', 'i', 'n', 'a', 'l', 'i', 'z', 'e', 'd'],
    }
}

impl Mode {
    /// The mode's wire spelling.
    pub fn as_str(&self) -> (r: &'static str)
        ensures
            r@ == mode_text(*self),
    {
        match self {
            Mode::Logs => {
                proof {
                    reveal_strlit("logs");
                }
                "logs"
            },
            Mode::Account => {
                proof {
                    reveal_strlit("account");
                }
                "account"
            },
        }
    }
}

impl Commitment {
    /// The commitment level's wire spelling.
    pub fn as_str(&self) -> (r: &'static str)
        ensures
            r@ == commitment_text(*self),
    {
        match self {
            Commitment::Processed => {
                proof {
                    reveal_strlit("processed");
                }
                "processed"
            },
            Commitment::Confirmed => {
                proof {
                    reveal_strlit("confirmed");
                }
                "confirmed"
            },
            Commitment::Finalized => {
                proof {
                    reveal_strlit("finalized");
                }
                "finalized"
            },
        }
    }
}

/// A configuration fault: the one unrecoverable, non-retried error class.
#[derive(Debug, Clone, Copy, PartialEq, Eq)]
pub enum ConfigError {
    /// Logs mode without a program id.
    MissingProgramId,
    /// Account mode without an account list.
    MissingAccounts,
    /// Account mode whose account list holds no usable address.
    NoAccountTargets,
}

impl ConfigError {
    /// A short description of the fault.
    pub fn message(&self) -> (r: &'static str) {
        match self {
            ConfigError::MissingProgramId => "logs mode requires a program id",
            ConfigError::MissingAccounts => "account mode requires an account list",
            ConfigError::NoAccountTargets => "no accounts provided for account subscription",
        }
    }
}

/// Resolved listener settings, handed in by startup code.
#[derive(Debug, Clone)]
pub struct Config {
    /// WebSocket endpoint.
    pub ws_url: String,
    /// Operation mode.
    pub mode: Mode,
    /// Program id, for logs mode.
    pub program_id: Option<String>,
    /// Comma-separated account addresses, for account mode.
    pub accounts: Option<String>,
    /// Commitment level.
    pub commitment: Commitment,
    /// Path of the append-only event log.
    pub event_log_path: String,
    /// Bind address of the metrics endpoint.
    pub metrics_addr: String,
}

/// Whitespace as the account-list cleanup understands it.
pub open spec fn is_space(c: char) -> bool {
    c == ' ' || c == '\t' || c == '\n' || c == '\r' || c == '\u{b}' || c == '\u{c}'
}

/// `s` without leading whitespace.
pub open spec fn trim_front(s: Seq<char>) -> Seq<char>
    decreases s.len(),
{
    if s.len() > 0 && is_space(s[0]) {
        trim_front(s.skip(1))
    } else {
        s
    }
}

/// `s` without trailing whitespace.
pub open spec fn trim_back(s: Seq<char>) -> Seq<char>
    decreases s.len(),
{
    if s.len() > 0 && is_space(s[s.len() - 1]) {
        trim_back(s.take(s.len() - 1))
    } else {
        s
    }
}

/// `s` without leading and trailing whitespace.
pub open spec fn trim_spaces(s: Seq<char>) -> Seq<char> {
    trim_back(trim_front(s))
}

/// The pieces of `s` between commas, reading from position `i` with the
/// piece built so far and the pieces already complete.
pub open spec fn split_commas_from(
    s: Seq<char>,
    i: int,
    cur: Seq<char>,
    acc: Seq<Seq<char>>,
) -> Seq<Seq<char>>
    decreases s.len() - i,
{
    if i >= s.len() {
        acc.push(cur)
    } else if s[i] == ',' {
        split_commas_from(s, i + 1, Seq::empty(), acc.push(cur))
    } else {
        split_commas_from(s, i + 1, cur.push(s[i]), acc)
    }
}

/// The pieces of `s` between commas.
pub open spec fn split_commas(s: Seq<char>) -> Seq<Seq<char>> {
    split_commas_from(s, 0, Seq::empty(), Seq::empty())
}

/// Each piece trimmed, empty pieces dropped, reading from piece `i`.
pub open spec fn clean_pieces_from(
    toks: Seq<Seq<char>>,
    i: int,
    acc: Seq<Seq<char>>,
) -> Seq<Seq<char>>
    decreases toks.len() - i,
{
    if i >= toks.len() {
        acc
    } else {
        let t = trim_spaces(toks[i]);
        if t.len() > 0 {
            clean_pieces_from(toks, i + 1, acc.push(t))
        } else {
            clean_pieces_from(toks, i + 1, acc)
        }
    }
}

/// The account addresses named by the comma-separated list `s`.
pub open spec fn accounts_list(s: Seq<char>) -> Seq<Seq<char>> {
    clean_pieces_from(split_commas(s), 0, Seq::empty())
}

/// The account addresses a configuration names: none when the list is absent.
pub open spec fn spec_accounts(accounts: Option<String>) -> Seq<Seq<char>> {
    match accounts {
        Some(s) => accounts_list(s@),
        None => Seq::empty(),
    }
}

/// Whether each mode's required subscription target is present.
pub open spec fn targets_present(c: Config) -> bool {
    &&& (c.mode is Logs ==> c.program_id is Some)
    &&& (c.mode is Account ==> c.accounts is Some)
}

/// `v[start..end]` as its own vector.
fn copy_range(v: &Vec<char>, start: usize, end: usize) -> (r: Vec<char>)
    requires
        start <= end <= v.len(),
    ensures
        r@ == v@.subrange(start as int, end as int),
{
    let mut r: Vec<char> = Vec::new();
    let mut i: usize = start;
    while i < end
        invariant
            start <= i <= end <= v.len(),
            r@ == v@.subrange(start as int, i as int),
        decreases end - i,
    {
        r.push(v[i]);
        i = i + 1;
        proof {
            assert(r@ =~= v@.subrange(start as int, i as int));
        }
    }
    r
}

/// Whether `c` counts as whitespace for trimming.
pub fn is_space_char(c: char) -> (r: bool)
    ensures
        r == is_space(c),
{
    c == ' ' || c == '\t' || c == '\n' || c == '\r' || c == '\u{b}' || c == '\u{c}'
}

/// `v` without leading and trailing whitespace.
fn trim_chars(v: &Vec<char>) -> (r: Vec<char>)
    ensures
        r@ == trim_spaces(v@),
{
    let n: usize = v.len();
    let mut start: usize = 0;
    proof {
        assert(v@.skip(0) =~= v@);
    }
    while start < n && is_space_char(v[start])
        invariant
            start <= n,
            n == v@.len(),
            trim_front(v@) == trim_front(v@.skip(start as int)),
        decreases n - start,
    {
        proof {
            assert(v@.skip(start as int)[0] == v@[start as int]);
            assert(v@.skip(start as int).skip(1) =~= v@.skip(start as int + 1));
        }
        start = start + 1;
    }
    proof {
        if start < n {
            assert(trim_front(v@) =~= v@.skip(start as int));
        } else {
            assert(v@.skip(start as int) =~= Seq::<char>::empty());
            assert(trim_front(v@) =~= Seq::<char>::empty());
        }
    }
    let ghost w = v@.skip(start as int);
    let mut end: usize = n;
    proof {
        assert(w.take(n - start) =~= w);
    }
    while end > start && is_space_char(v[end - 1])
        invariant
            start <= end <= n,
            n == v@.len(),
            w == v@.skip(start as int),
            trim_back(w) == trim_back(w.take(end - start)),
        decreases end,
    {
        proof {
            let k = end - start;
            assert(w.take(k)[k - 1] == v@[end - 1]);
            assert(w.take(k).take(k - 1) =~= w.take(k - 1));
        }
        end = end - 1;
    }
    proof {
        let k = end - start;
        if end > start {
            assert(w.take(k)[k - 1] == v@[end - 1]);
            assert(trim_back(w.take(k)) == w.take(k));
        } else {
            assert(w.take(0) =~= Seq::<char>::empty());
        }
        assert(trim_spaces(v@) == w.take(k));
        assert(w.take(k) =~= v@.subrange(start as int, end as int));
    }
    copy_range(v, start, end)
}

impl Config {
    /// Check that the configured mode has its subscription target: logs mode
    /// needs a program id, account mode an account list.
    pub fn validate(&self) -> (r: Result<(), ConfigError>)
        ensures
            r is Ok <==> targets_present(*self),
            (self.mode is Logs && self.program_id is None) ==> r == Err::<(), ConfigError>(
                ConfigError::MissingProgramId,
            ),
            (self.mode is Account && self.accounts is None) ==> r == Err::<(), ConfigError>(
                ConfigError::MissingAccounts,
            ),
    {
        match self.mode {
            Mode::Logs => {
                if self.program_id.is_none() {
                    return Err(ConfigError::MissingProgramId);
                }
            },
            Mode::Account => {
                if self.accounts.is_none() {
                    return Err(ConfigError::MissingAccounts);
                }
            },
        }
        Ok(())
    }

    /// The account addresses of the comma-separated list: each entry trimmed,
    /// empty entries dropped; an absent list yields no addresses.
    pub fn parse_accounts(&self) -> (r: Result<Vec<String>, ConfigError>)
        ensures
            r matches Ok(v) && v.deep_view() == spec_accounts(self.accounts),
    {
        let accounts_str = match &self.accounts {
            None => {
                let empty: Vec<String> = Vec::new();
                proof {
                    assert(empty.deep_view() =~= Seq::<Seq<char>>::empty());
                }
                return Ok(empty);
            },
            Some(s) => s,
        };
        let cs = str_chars(accounts_str.as_str());
        // Split on commas.
        let mut pieces: Vec<Vec<char>> = Vec::new();
        let mut cur: Vec<char> = Vec::new();
        let mut i: usize = 0;
        proof {
            assert(pieces.deep_view() =~~= Seq::<Seq<char>>::empty());
            assert(cur@ =~= Seq::<char>::empty());
        }
        while i < cs.len()
            invariant
                i <= cs.len(),
                split_commas(cs@) == split_commas_from(cs@, i as int, cur@, pieces.deep_view()),
            decreases cs.len() - i,
        {
            if cs[i] == ',' {
                let ghost p0 = pieces.deep_view();
                let ghost c0 = cur@;
                pieces.push(cur);
                cur = Vec::new();
                proof {
                    assert(pieces.deep_view() =~~= p0.push(c0));
                }
            } else {
                cur.push(cs[i]);
            }
            i = i + 1;
        }
        let ghost p1 = pieces.deep_view();
        let ghost c1 = cur@;
        pieces.push(cur);
        proof {
            assert(pieces.deep_view() =~~= p1.push(c1));
            assert(split_commas(cs@) == pieces.deep_view());
        }
        // Trim each piece, drop the empty ones.
        let mut out: Vec<String> = Vec::new();
        let mut j: usize = 0;
        proof {
            assert(out.deep_view() =~~= Seq::<Seq<char>>::empty());
        }
        while j < pieces.len()
            invariant
                j <= pieces.len(),
                accounts_list(cs@) == clean_pieces_from(
                    pieces.deep_view(),
                    j as int,
                    out.deep_view(),
                ),
            decreases pieces.len() - j,
        {
            proof {
                assert(pieces.deep_view()[j as int] =~= pieces@[j as int]@);
            }
            let t = trim_chars(&pieces[j]);
            if t.len() > 0 {
                let ghost o0 = out.deep_view();
                let s = chars_string(&t);
                out.push(s);
                proof {
                    assert(out.deep_view() =~~= o0.push(t@));
                }
            }
            j = j + 1;
        }
        proof {
            assert(out.deep_view() == accounts_list(cs@));
            assert(spec_accounts(self.accounts) == accounts_list(cs@));
        }
        Ok(out)
    }
}

} // verus!
