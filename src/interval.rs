//! The closed catalog of candle intervals, by token and by length in milliseconds.
use vstd::prelude::*;
use crate::error::ConfigError;

verus! {

/// The catalog: each interval token with its length in milliseconds.
pub open spec fn catalog() -> Seq<(Seq<char>, i64)> {
    seq![
        (seq!['1', 'm'], 60000i64),
        (seq!['5', 'm'], 300000i64),
        (seq!['1', '5', 'm'], 900000i64),
        (seq!['1', 'h'], 3600000i64),
        (seq!['4', 'h'], 14400000i64),
        (seq!['1', 'd'], 86400000i64),
    ]
}

/// The length of the first of the first `n` catalog entries with token `token`.
pub open spec fn millis_among(token: Seq<char>, n: int) -> Option<i64>
    decreases n,
{
    if n <= 0 {
        None
    } else {
        match millis_among(token, n - 1) {
            Some(ms) => Some(ms),
            None => if catalog()[n - 1].0 == token {
                Some(catalog()[n - 1].1)
            } else {
                None
            },
        }
    }
}

/// The token of the first of the first `n` catalog entries whose length is `ms`.
pub open spec fn token_among(ms: i64, n: int) -> Option<Seq<char>>
    decreases n,
{
    if n <= 0 {
        None
    } else {
        match token_among(ms, n - 1) {
            Some(t) => Some(t),
            None => if catalog()[n - 1].1 == ms {
                Some(catalog()[n - 1].0)
            } else {
                None
            },
        }
    }
}

/// The length in milliseconds of the interval named `token`, if the catalog has it.
pub open spec fn interval_millis(token: Seq<char>) -> Option<i64> {
    millis_among(token, catalog().len() as int)
}

/// The token of the interval that lasts exactly `ms` milliseconds, if the catalog has one.
pub open spec fn interval_token(ms: i64) -> Option<Seq<char>> {
    token_among(ms, catalog().len() as int)
}

proof fn lemma_millis_among_settled(token: Seq<char>, m: int, n: int)
    requires
        0 <= m <= n,
        millis_among(token, m) is Some,
    ensures
        millis_among(token, n) == millis_among(token, m),
    decreases n - m,
{
    if n > m {
        lemma_millis_among_settled(token, m, n - 1);
    }
}

proof fn lemma_token_among_settled(ms: i64, m: int, n: int)
    requires
        0 <= m <= n,
        token_among(ms, m) is Some,
    ensures
        token_among(ms, n) == token_among(ms, m),
    decreases n - m,
{
    if n > m {
        lemma_token_among_settled(ms, m, n - 1);
    }
}

/// The catalog as a table of string literals.
fn catalog_table() -> (r: Vec<(&'static str, i64)>)
    ensures
        r@.len() == catalog().len(),
        forall|i: int| 0 <= i < r@.len() ==> (#[trigger] r@[i]).0@ == catalog()[i].0 && r@[i].1 == catalog()[i].1,
{
    let r = vec![
        ("1m", 60000i64),
        ("5m", 300000i64),
        ("15m", 900000i64),
        ("1h", 3600000i64),
        ("4h", 14400000i64),
        ("1d", 86400000i64),
    ];
    proof {
        reveal_strlit("1m");
        reveal_strlit("5m");
        reveal_strlit("15m");
        reveal_strlit("1h");
        reveal_strlit("4h");
        reveal_strlit("1d");
        assert("1m"@ =~= seq!['1', 'm']);
        assert("5m"@ =~= seq!['5', 'm']);
        assert("15m"@ =~= seq!['1', '5', 'm']);
        assert("1h"@ =~= seq!['1', 'h']);
        assert("4h"@ =~= seq!['4', 'h']);
        assert("1d"@ =~= seq!['1', 'd']);
    }
    r
}

/// Whether two texts hold the same characters.
fn same_text(a: &str, b: &str) -> (r: bool)
    ensures
        r == (a@ == b@),
{
    let n = a.unicode_len();
    if n != b.unicode_len() {
        return false;
    }
    let mut i: usize = 0;
    while i < n
        invariant
            n == a@.len(),
            n == b@.len(),
            i <= n,
            a@.subrange(0, i as int) == b@.subrange(0, i as int),
        decreases n - i,
    {
        if a.get_char(i) != b.get_char(i) {
            return false;
        }
        proof {
            assert(a@.subrange(0, i + 1) =~= a@.subrange(0, i as int).push(a@[i as int]));
            assert(b@.subrange(0, i + 1) =~= b@.subrange(0, i as int).push(b@[i as int]));
        }
        i = i + 1;
    }
    proof {
        assert(a@ =~= a@.subrange(0, n as int));
        assert(b@ =~= b@.subrange(0, n as int));
    }
    true
}

/// The length in milliseconds of the interval named `token`; `UnknownInterval`
/// when the catalog has no such token.
pub fn deserialize_duration(token: &str) -> (r: Result<i64, ConfigError>)
    ensures
        match interval_millis(token@) {
            Some(ms) => r == Ok::<i64, ConfigError>(ms),
            None => r == Err::<i64, ConfigError>(ConfigError::UnknownInterval),
        },
{
    let table = catalog_table();
    let mut i: usize = 0;
    while i < table.len()
        invariant
            table@.len() == catalog().len(),
            forall|j: int| 0 <= j < table@.len() ==> (#[trigger] table@[j]).0@ == catalog()[j].0 && table@[j].1 == catalog()[j].1,
            i <= table@.len(),
            millis_among(token@, i as int) is None,
        decreases table@.len() - i,
    {
        if same_text(table[i].0, token) {
            proof {
                lemma_millis_among_settled(token@, i + 1, catalog().len() as int);
            }
            return Ok(table[i].1);
        }
        i = i + 1;
    }
    Err(ConfigError::UnknownInterval)
}

/// The token of the interval that lasts exactly `duration_ms` milliseconds;
/// `UnsupportedDuration` when no interval of the catalog does.
pub fn serialize_duration(duration_ms: i64) -> (r: Result<&'static str, ConfigError>)
    ensures
        match interval_token(duration_ms) {
            Some(t) => r is Ok && r->Ok_0@ == t,
            None => r == Err::<&'static str, ConfigError>(ConfigError::UnsupportedDuration),
        },
{
    let table = catalog_table();
    let mut i: usize = 0;
    while i < table.len()
        invariant
            table@.len() == catalog().len(),
            forall|j: int| 0 <= j < table@.len() ==> (#[trigger] table@[j]).0@ == catalog()[j].0 && table@[j].1 == catalog()[j].1,
            i <= table@.len(),
            token_among(duration_ms, i as int) is None,
        decreases table@.len() - i,
    {
        if table[i].1 == duration_ms {
            proof {
                lemma_token_among_settled(duration_ms, i + 1, catalog().len() as int);
            }
            return Ok(table[i].0);
        }
        i = i + 1;
    }
    Err(ConfigError::UnsupportedDuration)
}

/// Length of the default interval, fifteen minutes.
pub fn default_interval() -> (r: i64)
    ensures
        r == 900000,
        interval_token(r) == Some(seq!['1', '5', 'm']),
{
    proof {
        assert(token_among(900000, 0) is None);
        assert(catalog()[0].1 == 60000i64);
        assert(catalog()[1].1 == 300000i64);
        assert(catalog()[2].1 == 900000i64);
        assert(token_among(900000, 1) is None);
        assert(token_among(900000, 2) is None);
        assert(token_among(900000, 3) == Some(seq!['1', '5', 'm']));
        lemma_token_among_settled(900000, 3, catalog().len() as int);
    }
    900000
}

} // verus!
