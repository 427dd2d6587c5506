//! Command-line flags given as key/value pairs: `--name value` or `-n value`.
use vstd::prelude::*;
use vstd::string::StrSliceExecFns;

use crate::errs::SCSPErr;

verus! {

/// A short key: one dash and one letter or digit.
pub const ABBREV_PATTERN: &'static str = "^-[a-zA-Z0-9]{1}$";

/// A long key: two dashes, then letters, digits or dashes.
pub const FULL_PATTERN: &'static str = "^--[\\-a-zA-Z0-9]+";

/// Relies on `str::parse`: reads `s` as a `T` by `T`'s own `FromStr`.
#[verifier::external_body]
fn parse_num<T: std::str::FromStr>(s: &str) -> Option<T> {
    s.parse::<T>().ok()
}

/// An ASCII letter or digit.
pub open spec fn is_key_char(c: char) -> bool {
    ('a' <= c && c <= 'z') || ('A' <= c && c <= 'Z') || ('0' <= c && c <= '9')
}

/// A token that names a short key: a dash, then one letter or digit.
pub open spec fn is_abbrev_token(t: Seq<char>) -> bool {
    t.len() == 2 && t[0] == '-' && is_key_char(t[1])
}

/// A token that names a long key: two dashes, then a letter, digit or dash,
/// then anything.
pub open spec fn is_full_token(t: Seq<char>) -> bool {
    t.len() >= 3 && t[0] == '-' && t[1] == '-' && (is_key_char(t[2]) || t[2] == '-')
}

/// An ASCII digit.
pub open spec fn is_digit(c: char) -> bool {
    '0' <= c && c <= '9'
}

/// The number that a string of digits spells in decimal.
pub open spec fn digits_value(s: Seq<char>) -> int
    decreases s.len(),
{
    if s.len() == 0 {
        0
    } else {
        digits_value(s.drop_last()) * 10 + (s.last() as u32 - '0' as u32)
    }
}

/// `s` without its leading sign, if it has one.
pub open spec fn unsigned_part(s: Seq<char>) -> Seq<char> {
    if s.len() > 0 && (s[0] == '-' || s[0] == '+') {
        s.subrange(1, s.len() as int)
    } else {
        s
    }
}

/// `s` read as a decimal `i64`: an optional `+` or `-`, then one or more
/// digits and nothing else, with a value in range.
pub open spec fn decimal_i64(s: Seq<char>) -> Option<i64> {
    let body = unsigned_part(s);
    let v = if s.len() > 0 && s[0] == '-' {
        -digits_value(body)
    } else {
        digits_value(body)
    };
    if body.len() == 0 || exists|i: int| 0 <= i < body.len() && !is_digit(#[trigger] body[i]) {
        None
    } else if i64::MIN <= v && v <= i64::MAX {
        Some(v as i64)
    } else {
        None
    }
}

/// A string of digits spells at least as much as any of its prefixes.
proof fn lemma_digits_prefix(s: Seq<char>, k: int)
    requires
        0 <= k <= s.len(),
        forall|i: int| 0 <= i < s.len() ==> is_digit(#[trigger] s[i]),
    ensures
        0 <= digits_value(s.subrange(0, k)) <= digits_value(s),
    decreases s.len(),
{
    if k < s.len() {
        let d = s.drop_last();
        lemma_digits_prefix(d, k);
        assert(d.subrange(0, k) =~= s.subrange(0, k));
        lemma_digits_prefix(d, d.len() as int);
        assert(d.subrange(0, d.len() as int) =~= d);
    } else {
        assert(s.subrange(0, k) =~= s);
        if s.len() > 0 {
            let d = s.drop_last();
            lemma_digits_prefix(d, d.len() as int);
            assert(d.subrange(0, d.len() as int) =~= d);
        }
    }
}

/// Reads `s` as a decimal `i64`, as `str::parse` reads one.
pub fn parse_i64(s: &str) -> (r: Option<i64>)
    ensures
        r == decimal_i64(s@),
{
    let n = s.unicode_len();
    if n == 0 {
        return None;
    }
    let first = s.get_char(0);
    let neg = first == '-';
    let start: usize = if first == '-' || first == '+' {
        1
    } else {
        0
    };
    let ghost body = s@.subrange(start as int, n as int);
    proof {
        assert(s@[0] == first);
        if start == 0 {
            assert(body =~= s@);
        }
        assert(body == unsigned_part(s@));
    }
    if start == n {
        assert(decimal_i64(s@) is None);
        return None;
    }
    let mut acc: u64 = 0;
    let mut i: usize = start;
    while i < n
        invariant
            start <= i <= n,
            n == s@.len(),
            n > 0,
            start == (if s@[0] == '-' || s@[0] == '+' {
                1usize
            } else {
                0usize
            }),
            body == unsigned_part(s@),
            neg == (s@[0] == '-'),
            body == s@.subrange(start as int, n as int),
            acc as int == digits_value(body.subrange(0, i - start)),
            acc <= 9223372036854775808u64,
            forall|j: int| 0 <= j < i - start ==> is_digit(#[trigger] body[j]),
        decreases n - i,
    {
        let c = s.get_char(i);
        assert(body[i - start] == c);
        let code = c as u32;
        if code < 48 || code > 57 {
            assert(!is_digit(body[i - start]));
            assert(decimal_i64(s@) is None);
            return None;
        }
        let d = (code - 48) as u64;
        assert(body.subrange(0, i - start + 1).drop_last() =~= body.subrange(0, i - start));
        if acc > 922337203685477580 || (acc == 922337203685477580 && d > 8) {
            proof {
                let k = i - start + 1;
                assert(digits_value(body.subrange(0, k)) > 9223372036854775808);
                if forall|j: int| 0 <= j < body.len() ==> is_digit(#[trigger] body[j]) {
                    lemma_digits_prefix(body, k);
                }
                assert(decimal_i64(s@) is None);
            }
            return None;
        }
        acc = acc * 10 + d;
        i = i + 1;
    }
    assert(body.subrange(0, n - start) =~= body);
    assert(!(exists|j: int| 0 <= j < body.len() && !is_digit(#[trigger] body[j])));
    if neg {
        if acc == 9223372036854775808u64 {
            Some(i64::MIN)
        } else {
            Some(-(acc as i64))
        }
    } else if acc > 9223372036854775807u64 {
        None
    } else {
        Some(acc as i64)
    }
}

/// A token that may stand where a key is expected.
pub open spec fn is_key_token(t: Seq<char>) -> bool {
    is_abbrev_token(t) || is_full_token(t)
}

/// The name that a key token binds: without its leading dash or dashes.
pub open spec fn key_name(t: Seq<char>) -> Seq<char> {
    if is_abbrev_token(t) {
        t.subrange(1, t.len() as int)
    } else {
        t.subrange(2, t.len() as int)
    }
}

/// Some token in a key position is not a key.
pub open spec fn key_error(args: Seq<Seq<char>>) -> bool {
    exists|i: int| 0 <= i < args.len() && i % 2 == 0 && !is_key_token(#[trigger] args[i])
}

/// The `m`-th binding of `args`: whether its key is short, its name, its value.
pub open spec fn binding(args: Seq<Seq<char>>, m: int) -> (bool, Seq<char>, Seq<char>) {
    (is_abbrev_token(args[2 * m]), key_name(args[2 * m]), args[2 * m + 1])
}

/// Every binding of `args`, in order.
pub open spec fn bindings(args: Seq<Seq<char>>) -> Seq<(bool, Seq<char>, Seq<char>)> {
    Seq::new((args.len() / 2) as nat, |m: int| binding(args, m))
}

/// The value last bound to `name` among the bindings of the given kind.
pub open spec fn last_value(b: Seq<(bool, Seq<char>, Seq<char>)>, abbrev: bool, name: Seq<char>) -> Option<
    Seq<char>,
>
    decreases b.len(),
{
    if b.len() == 0 {
        None
    } else if b.last().0 == abbrev && b.last().1 == name {
        Some(b.last().2)
    } else {
        last_value(b.drop_last(), abbrev, name)
    }
}

/// The value of the long key `full`, or else of the short key `abbrev`.
pub open spec fn either_value(b: Seq<(bool, Seq<char>, Seq<char>)>, full: Seq<char>, abbrev: Seq<char>) -> Option<
    Seq<char>,
> {
    match last_value(b, false, full) {
        Some(v) => Some(v),
        None => last_value(b, true, abbrev),
    }
}

/// The strings' contents.
pub open spec fn texts(s: Seq<String>) -> Seq<Seq<char>> {
    s.map_values(|x: String| x@)
}

/// The bindings read from the command line; a later binding of a name hides
/// an earlier one.
pub struct Parser {
    entries: Vec<(bool, String, String)>,
}

impl View for Parser {
    type V = Seq<(bool, Seq<char>, Seq<char>)>;

    closed spec fn view(&self) -> Seq<(bool, Seq<char>, Seq<char>)> {
        self.entries@.map_values(|e: (bool, String, String)| (e.0, e.1@, e.2@))
    }
}

impl Parser {
    /// Whether `token` is a short key. Relies on `regex::Regex::new` and
    /// `regex::Regex::is_match` with `ABBREV_PATTERN`, whose anchors make the
    /// match cover the whole token.
    #[verifier::external_body]
    fn is_abbrev(token: &str) -> (r: bool)
        ensures
            r == is_abbrev_token(token@),
    {
        match regex::Regex::new(ABBREV_PATTERN) {
            Ok(re) => re.is_match(token),
            Err(_) => false,
        }
    }

    /// Whether `token` is a long key. Relies on `regex::Regex::new` and
    /// `regex::Regex::is_match` with `FULL_PATTERN`, anchored at the front
    /// only, so one class character after the dashes is enough.
    #[verifier::external_body]
    fn is_full(token: &str) -> (r: bool)
        ensures
            r == is_full_token(token@),
    {
        match regex::Regex::new(FULL_PATTERN) {
            Ok(re) => re.is_match(token),
            Err(_) => false,
        }
    }

    /// Reads `args` as key/value pairs. A key position that holds no key is
    /// an error, and so is a key without a value.
    pub fn new(args: Vec<String>) -> (r: Result<Parser, SCSPErr>)
        ensures
            key_error(texts(args@)) ==> (r matches Err(e) && e@ == "expecting key"@),
            !key_error(texts(args@)) && args@.len() % 2 == 1 ==> (r matches Err(e) && e@
                == "invalid number of args"@),
            !key_error(texts(args@)) && args@.len() % 2 == 0 ==> (r matches Ok(p) && p@
                == bindings(texts(args@))),
    {
        let ghost t = texts(args@);
        let mut entries: Vec<(bool, String, String)> = Vec::new();
        let mut i: usize = 0;
        while i < args.len()
            invariant
                i <= args.len(),
                i % 2 == 0,
                t == texts(args@),
                t.len() == args@.len(),
                forall|j: int| 0 <= j < i && j % 2 == 0 ==> is_key_token(#[trigger] t[j]),
                entries@.len() == i / 2,
                forall|m: int|
                    0 <= m < i / 2 ==> ((#[trigger] entries@[m]).0, entries@[m].1@, entries@[m].2@)
                        == binding(t, m),
            decreases args.len() - i,
        {
            let token = args[i].as_str();
            assert(token@ == t[i as int]);
            let abbrev = Self::is_abbrev(token);
            if !abbrev && !Self::is_full(token) {
                return Err(SCSPErr::new("expecting key"));
            }
            if i + 1 >= args.len() {
                proof {
                    assert forall|j: int|
                        0 <= j < t.len() && j % 2 == 0 implies is_key_token(#[trigger] t[j]) by {
                        if j != i {
                            assert(j < i);
                        }
                    }
                }
                return Err(SCSPErr::new("invalid number of args"));
            }
            let len = token.unicode_len();
            let name = if abbrev {
                token.substring_char(1, len).to_owned()
            } else {
                token.substring_char(2, len).to_owned()
            };
            assert(2 * (i as int / 2) == i);
            let value = args[i + 1].clone();
            entries.push((abbrev, name, value));
            i = i + 2;
        }
        let p = Parser { entries };
        assert(p@ =~= bindings(t));
        Ok(p)
    }

    /// The value last bound to `name` among the bindings of the given kind.
    fn lookup(&self, abbrev: bool, name: &str) -> (r: Option<String>)
        ensures
            r matches Some(v) ==> last_value(self@, abbrev, name@) == Some(v@),
            r is None ==> last_value(self@, abbrev, name@) is None,
    {
        let key = name.to_owned();
        let mut i: usize = self.entries.len();
        assert(self@.subrange(0, i as int) =~= self@);
        while i > 0
            invariant
                i <= self.entries.len(),
                self@.len() == self.entries.len(),
                key@ == name@,
                last_value(self@, abbrev, name@) == last_value(self@.subrange(0, i as int), abbrev, name@),
            decreases i,
        {
            let ghost pre = self@.subrange(0, i as int);
            assert(pre.drop_last() =~= self@.subrange(0, i - 1));
            if self.entries[i - 1].0 == abbrev && self.entries[i - 1].1 == key {
                return Some(self.entries[i - 1].2.clone());
            }
            i = i - 1;
        }
        None
    }

    /// The value of the long key `key` (given without dashes).
    pub fn find(&self, key: &str) -> (r: Option<String>)
        ensures
            r matches Some(v) ==> last_value(self@, false, key@) == Some(v@),
            r is None ==> last_value(self@, false, key@) is None,
    {
        self.lookup(false, key)
    }

    /// The value of the short key `key` (given without its dash).
    pub fn find_abbrev(&self, key: &str) -> (r: Option<String>)
        ensures
            r matches Some(v) ==> last_value(self@, true, key@) == Some(v@),
            r is None ==> last_value(self@, true, key@) is None,
    {
        self.lookup(true, key)
    }

    /// The value of the long key `key_full`, or else of the short key
    /// `key_abbrev`: the long one wins where both are bound.
    pub fn find_either(&self, key_full: &str, key_abbrev: &str) -> (r: Option<String>)
        ensures
            r matches Some(v) ==> either_value(self@, key_full@, key_abbrev@) == Some(v@),
            r is None ==> either_value(self@, key_full@, key_abbrev@) is None,
    {
        match self.find(key_full) {
            Some(v) => Some(v),
            None => self.find_abbrev(key_abbrev),
        }
    }

    /// The value of the long key `key`, read as a `T`; `None` where the key is
    /// unbound or its value does not read as a `T`.
    pub fn find_num<T: std::str::FromStr>(&self, key: &str) -> (r: Option<T>)
        ensures
            last_value(self@, false, key@) is None ==> r is None,
    {
        match self.find(key) {
            Some(v) => parse_num::<T>(v.as_str()),
            None => None,
        }
    }

    /// The value of the long key `key`, read as a decimal `i64`; `None` where
    /// the key is unbound or its value is no such number.
    pub fn find_i64(&self, key: &str) -> (r: Option<i64>)
        ensures
            r == match last_value(self@, false, key@) {
                Some(v) => decimal_i64(v),
                None => None,
            },
    {
        match self.find(key) {
            Some(v) => parse_i64(v.as_str()),
            None => None,
        }
    }

    /// As `find_either`, with the value read as a `T`.
    pub fn find_either_num<T: std::str::FromStr>(&self, key_full: &str, key_abbrev: &str) -> (r:
        Option<T>)
        ensures
            either_value(self@, key_full@, key_abbrev@) is None ==> r is None,
    {
        match self.find_either(key_full, key_abbrev) {
            Some(v) => parse_num::<T>(v.as_str()),
            None => None,
        }
    }
}

} // verus!
