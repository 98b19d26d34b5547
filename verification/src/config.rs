//! Runtime settings resolved from the environment's values: the port, the
//! database URL, the optional base path, the optional static directory and
//! the upload directory. Reading the environment and parsing the bind address
//! are left to the caller.

use vstd::prelude::*;

verus! {

pub open spec fn is_digit(c: char) -> bool {
    '0' <= c && c <= '9'
}

/// The number a run of decimal digits denotes.
pub open spec fn decimal_value(s: Seq<char>) -> int
    decreases s.len(),
{
    if s.len() == 0 {
        0
    } else {
        10 * decimal_value(s.drop_last()) + (s.last() as int - '0' as int)
    }
}

/// The digits after an optional leading `+`.
pub open spec fn sign_stripped(s: Seq<char>) -> Seq<char> {
    if s.len() > 0 && s[0] == '+' { s.drop_first() } else { s }
}

pub open spec fn all_digits(d: Seq<char>) -> bool {
    forall|i: int| 0 <= i < d.len() ==> is_digit(#[trigger] d[i])
}

/// What `str::parse::<u16>` gives: an optional `+`, then at least one digit,
/// denoting at most 65535.
pub open spec fn parse_u16_spec(s: Seq<char>) -> Option<u16> {
    let d = sign_stripped(s);
    if d.len() > 0 && all_digits(d) && decimal_value(d) <= 65535 {
        Some(decimal_value(d) as u16)
    } else {
        None
    }
}

proof fn lemma_decimal_nonneg_monotone(s: Seq<char>, k: int)
    requires
        0 <= k <= s.len(),
        forall|i: int| 0 <= i < s.len() ==> is_digit(#[trigger] s[i]),
    ensures
        0 <= decimal_value(s.subrange(0, k)) <= decimal_value(s),
    decreases s.len() - k,
{
    if k < s.len() {
        lemma_decimal_nonneg_monotone(s, k + 1);
        let t = s.subrange(0, k + 1);
        assert(t.drop_last() =~= s.subrange(0, k));
        lemma_decimal_nonneg(s.subrange(0, k));
    } else {
        assert(s.subrange(0, k) =~= s);
        lemma_decimal_nonneg(s);
    }
}

proof fn lemma_decimal_nonneg(s: Seq<char>)
    requires
        forall|i: int| 0 <= i < s.len() ==> is_digit(#[trigger] s[i]),
    ensures
        decimal_value(s) >= 0,
    decreases s.len(),
{
    if s.len() > 0 {
        lemma_decimal_nonneg(s.drop_last());
    }
}

/// `text.parse::<u16>().ok()`.
pub fn parse_port(text: &str) -> (r: Option<u16>)
    ensures
        r == parse_u16_spec(text@),
{
    let n = text.unicode_len();
    let start: usize = if n > 0 && text.get_char(0) == '+' { 1 } else { 0 };
    let ghost d = sign_stripped(text@);
    proof {
        assert(d =~= text@.subrange(start as int, n as int));
    }
    if start >= n {
        return None;
    }
    let mut value: u32 = 0;
    let mut i: usize = start;
    while i < n
        invariant
            n == text@.len(),
            start <= i <= n,
            d == text@.subrange(start as int, n as int),
            d == sign_stripped(text@),
            forall|j: int| start <= j < i ==> is_digit(#[trigger] text@[j]),
            value as int == decimal_value(text@.subrange(start as int, i as int)),
            value <= 65535,
        decreases n - i,
    {
        let c = text.get_char(i);
        if !('0' <= c && c <= '9') {
            proof {
                assert(d[i - start] == c);
                assert(!is_digit(d[i - start]));
                assert(!all_digits(d));
                assert(parse_u16_spec(text@) is None);
            }
            return None;
        }
        let digit = (c as u32) - ('0' as u32);
        let next = value * 10 + digit;
        proof {
            let p = text@.subrange(start as int, i + 1);
            assert(p.drop_last() =~= text@.subrange(start as int, i as int));
            assert(p.last() == c);
            assert(next as int == decimal_value(p));
        }
        if next > 65535 {
            proof {
                let p = text@.subrange(start as int, i + 1);
                if all_digits(d) {
                    lemma_decimal_nonneg_monotone(d, i + 1 - start);
                    assert(d.subrange(0, i + 1 - start) =~= p);
                    assert(decimal_value(d) > 65535);
                }
                assert(parse_u16_spec(text@) is None);
            }
            return None;
        }
        value = next;
        i = i + 1;
    }
    proof {
        assert(text@.subrange(start as int, n as int) == d);
        assert forall|j: int| 0 <= j < d.len() implies is_digit(#[trigger] d[j]) by {
            assert(d[j] == text@[start + j]);
        }
    }
    Some(value as u16)
}

/// The settings of a server, from the values of `BOUEDIG_PORT`,
/// `BOUEDIG_DB_URL`, `BOUEDIG_BASE_PATH`, `BOUEDIG_STATIC_DIR` and
/// `BOUEDIG_DATA_DIR` (absent when unset).
pub struct ServerSettings {
    pub port: u16,
    pub db_url: String,
    pub base_path: Option<String>,
    pub static_dir: Option<String>,
    pub data_dir: String,
}

/// `"sqlite://bouedig.db?mode=rwc"`.
pub open spec fn default_db_url() -> Seq<char> {
    seq!['s', 'q', 'l', 'i', 't', 'e', ':', '/', '/', 'b', 'o', 'u', 'e', 'd', 'i', 'g', '.', 'd', 'b', '?', 'm', 'o', 'd', 'e', '=', 'r', 'w', 'c']
}

/// `"data"`.
pub open spec fn default_data_dir() -> Seq<char> {
    seq!['d', 'a', 't', 'a']
}

/// A value that is present and not empty.
pub open spec fn non_empty(o: Option<Seq<char>>) -> Option<Seq<char>> {
    match o {
        Some(s) => if s.len() > 0 { Some(s) } else { None },
        None => None,
    }
}

fn keep_non_empty(o: Option<String>) -> (r: Option<String>)
    ensures
        r.deep_view() == non_empty(o.deep_view()),
{
    match o {
        Some(s) => if s.as_str().is_empty() { None } else { Some(s) },
        None => None,
    }
}

/// Resolve the settings: the port defaults to 3000 when unset or not a valid
/// port number, the database URL to `sqlite://bouedig.db?mode=rwc`, the data
/// directory to `data`; an empty base path or static directory counts as
/// unset.
pub fn server_settings(
    port: Option<String>,
    db_url: Option<String>,
    base_path: Option<String>,
    static_dir: Option<String>,
    data_dir: Option<String>,
) -> (r: ServerSettings)
    ensures
        r.port == match port {
            Some(p) => match parse_u16_spec(p@) {
                Some(v) => v,
                None => 3000u16,
            },
            None => 3000u16,
        },
        r.db_url@ == match db_url {
            Some(u) => u@,
            None => default_db_url(),
        },
        r.base_path.deep_view() == non_empty(base_path.deep_view()),
        r.static_dir.deep_view() == non_empty(static_dir.deep_view()),
        r.data_dir@ == match data_dir {
            Some(d) => d@,
            None => default_data_dir(),
        },
{
    let port = match port {
        Some(p) => match parse_port(p.as_str()) {
            Some(v) => v,
            None => 3000,
        },
        None => 3000,
    };
    let db_url = match db_url {
        Some(u) => u,
        None => {
            let u = "sqlite://bouedig.db?mode=rwc".to_owned();
            proof {
                reveal_strlit("sqlite://bouedig.db?mode=rwc");
                assert(u@ =~= default_db_url());
            }
            u
        },
    };
    let data_dir = match data_dir {
        Some(d) => d,
        None => {
            let d = "data".to_owned();
            proof {
                reveal_strlit("data");
                assert(d@ =~= default_data_dir());
            }
            d
        },
    };
    ServerSettings {
        port,
        db_url,
        base_path: keep_non_empty(base_path),
        static_dir: keep_non_empty(static_dir),
        data_dir,
    }
}

} // verus!
