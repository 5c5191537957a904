use vstd::prelude::*;

use crate::error::Error;
use crate::metadata::COLON;
use crate::metadata::COMMA;
use crate::metadata::LBRACE;
use crate::metadata::QUOTE;
use crate::metadata::RBRACE;
use crate::metadata::MetaSpec;
use crate::metadata::ScalarVal;
use crate::metadata::TokenMetadata;
use crate::metadata::false_lit;
use crate::metadata::key_asset;
use crate::metadata::key_description;
use crate::metadata::key_mergeable;
use crate::metadata::key_name;
use crate::metadata::key_timeable;
use crate::metadata::key_timestamp;
use crate::metadata::encode_spec;
use crate::metadata::member_bytes;
use crate::metadata::plain;
use crate::metadata::plain_byte;
use crate::metadata::quoted;
use crate::metadata::scalar_bytes;
use crate::metadata::true_lit;
use crate::numeral::dec_digits;
use crate::numeral::fold_digits;
use crate::numeral::is_digit;
use crate::numeral::lemma_dec_digits_value;
use crate::numeral::lemma_fold_digits_ge_acc;

verus! {

/// Reads the body of a quoted text value starting at `i`, up to and past the
/// closing quote. Only plain bytes may stand inside: there are no escapes in
/// this format.
pub open spec fn parse_string_rec(s: Seq<u8>, i: int) -> Option<(Seq<u8>, int)>
    decreases s.len() - i,
{
    if i < 0 || i >= s.len() {
        None
    } else if s[i] == QUOTE {
        Some((Seq::empty(), i + 1))
    } else if plain_byte(s[i]) {
        match parse_string_rec(s, i + 1) {
            Some((t, j)) => Some((seq![s[i]] + t, j)),
            None => None,
        }
    } else {
        None
    }
}

/// Reads a quoted text value whose opening quote stands at `i`.
pub open spec fn parse_string(s: Seq<u8>, i: int) -> Option<(Seq<u8>, int)> {
    if 0 <= i < s.len() && s[i] == QUOTE {
        parse_string_rec(s, i + 1)
    } else {
        None
    }
}

/// Reads decimal digits onto `acc` until a non-digit; a value past `u64::MAX`
/// is malformed.
pub open spec fn parse_num_rec(s: Seq<u8>, i: int, acc: u64) -> Option<(u64, int)>
    decreases s.len() - i,
{
    if i < 0 || i >= s.len() || !is_digit(s[i]) {
        Some((acc, i))
    } else if acc * 10 + (s[i] - 48) > u64::MAX {
        None
    } else {
        parse_num_rec(s, i + 1, (acc * 10 + (s[i] - 48)) as u64)
    }
}

/// Reads an unsigned decimal number whose first digit stands at `i`.
pub open spec fn parse_num(s: Seq<u8>, i: int) -> Option<(u64, int)> {
    if 0 <= i < s.len() && is_digit(s[i]) {
        parse_num_rec(s, i, 0)
    } else {
        None
    }
}

/// Reads one scalar value: quoted text, `true`, `false`, or a number.
pub open spec fn parse_scalar(s: Seq<u8>, i: int) -> Option<(ScalarVal, int)> {
    if i < 0 || i >= s.len() {
        None
    } else if s[i] == QUOTE {
        match parse_string(s, i) {
            Some((t, j)) => Some((ScalarVal::Str(t), j)),
            None => None,
        }
    } else if s[i] == 116 {
        if i + 4 <= s.len() && s.subrange(i, i + 4) == true_lit() {
            Some((ScalarVal::Bool(true), i + 4))
        } else {
            None
        }
    } else if s[i] == 102 {
        if i + 5 <= s.len() && s.subrange(i, i + 5) == false_lit() {
            Some((ScalarVal::Bool(false), i + 5))
        } else {
            None
        }
    } else if is_digit(s[i]) {
        match parse_num(s, i) {
            Some((n, j)) => Some((ScalarVal::Num(n), j)),
            None => None,
        }
    } else {
        None
    }
}

/// The fields collected so far while reading members. `None` means the field
/// has not appeared yet.
pub struct MetaAcc {
    /// Collected `name`, if seen.
    pub name: Option<Seq<u8>>,
    /// Collected `description`, if seen.
    pub description: Option<Seq<u8>>,
    /// Collected `asset`, if seen.
    pub asset_uri: Option<Seq<u8>>,
    /// Collected `timeable`, if seen.
    pub timeable: Option<bool>,
    /// Collected `mergeable`, if seen.
    pub mergeable: Option<bool>,
    /// Collected `timestamp`, if seen.
    pub expiry: Option<u64>,
}

/// The accumulator before any member has been read.
pub open spec fn empty_acc() -> MetaAcc {
    MetaAcc {
        name: None,
        description: None,
        asset_uri: None,
        timeable: None,
        mergeable: None,
        expiry: None,
    }
}

/// Records one `key:value` member. A known key must carry a value of its
/// type and must not repeat; an unknown key is skipped.
pub open spec fn apply_member(acc: MetaAcc, k: Seq<u8>, v: ScalarVal) -> Option<MetaAcc> {
    if k == key_name() {
        match (acc.name, v) {
            (Option::None, ScalarVal::Str(t)) => Some(MetaAcc { name: Some(t), ..acc }),
            _ => None,
        }
    } else if k == key_description() {
        match (acc.description, v) {
            (Option::None, ScalarVal::Str(t)) => Some(MetaAcc { description: Some(t), ..acc }),
            _ => None,
        }
    } else if k == key_asset() {
        match (acc.asset_uri, v) {
            (Option::None, ScalarVal::Str(t)) => Some(MetaAcc { asset_uri: Some(t), ..acc }),
            _ => None,
        }
    } else if k == key_timeable() {
        match (acc.timeable, v) {
            (Option::None, ScalarVal::Bool(b)) => Some(MetaAcc { timeable: Some(b), ..acc }),
            _ => None,
        }
    } else if k == key_mergeable() {
        match (acc.mergeable, v) {
            (Option::None, ScalarVal::Bool(b)) => Some(MetaAcc { mergeable: Some(b), ..acc }),
            _ => None,
        }
    } else if k == key_timestamp() {
        match (acc.expiry, v) {
            (Option::None, ScalarVal::Num(n)) => Some(MetaAcc { expiry: Some(n), ..acc }),
            _ => None,
        }
    } else {
        Some(acc)
    }
}

/// Reads `"key":value` members separated by commas, up to and past the
/// closing brace. `fuel` bounds the recursion; one byte of input per member
/// is always consumed, so the input length is fuel enough.
pub open spec fn parse_members(s: Seq<u8>, i: int, acc: MetaAcc, fuel: nat) -> Option<
    (MetaAcc, int),
>
    decreases fuel,
{
    if fuel == 0 {
        None
    } else {
        match parse_string(s, i) {
            None => None,
            Some((k, j)) => if 0 <= j < s.len() && s[j] == COLON {
                match parse_scalar(s, j + 1) {
                    None => None,
                    Some((v, e)) => match apply_member(acc, k, v) {
                        None => None,
                        Some(acc2) => if 0 <= e < s.len() && s[e] == COMMA {
                            parse_members(s, e + 1, acc2, (fuel - 1) as nat)
                        } else if 0 <= e < s.len() && s[e] == RBRACE {
                            Some((acc2, e + 1))
                        } else {
                            None
                        },
                    },
                }
            } else {
                None
            },
        }
    }
}

/// The record an accumulator denotes, provided the three required fields all
/// appeared.
pub open spec fn finish_acc(acc: MetaAcc) -> Option<MetaSpec> {
    match (acc.name, acc.description, acc.asset_uri) {
        (Some(n), Some(d), Some(a)) => Some(
            MetaSpec {
                name: n,
                description: d,
                asset_uri: a,
                timeable: acc.timeable,
                mergeable: acc.mergeable,
                expiry: acc.expiry,
            },
        ),
        _ => None,
    }
}

/// What a whole payload denotes: a braced member list covering the full
/// input, with `name`, `description` and `asset` all present. `None` is a
/// malformed payload.
pub open spec fn parse_spec(s: Seq<u8>) -> Option<MetaSpec> {
    if s.len() >= 1 && s[0] == LBRACE {
        match parse_members(s, 1, empty_acc(), s.len() as nat) {
            Some((acc, e)) => if e == s.len() {
                finish_acc(acc)
            } else {
                None
            },
            None => None,
        }
    } else {
        None
    }
}

/// A scalar value as the scanner materialises it.
pub enum Scalar {
    /// A quoted text value.
    Str(Vec<u8>),
    /// A bare `true` or `false`.
    Bool(bool),
    /// An unsigned decimal number.
    Num(u64),
}

impl View for Scalar {
    type V = ScalarVal;

    open spec fn view(&self) -> ScalarVal {
        match self {
            Scalar::Str(v) => ScalarVal::Str(v@),
            Scalar::Bool(b) => ScalarVal::Bool(*b),
            Scalar::Num(n) => ScalarVal::Num(*n),
        }
    }
}

fn scan_string_rec(s: &Vec<u8>, i: usize) -> (r: Option<(Vec<u8>, usize)>)
    ensures
        match r {
            Some((t, j)) => parse_string_rec(s@, i as int) == Some((t@, j as int)) && i < j
                <= s@.len(),
            None => parse_string_rec(s@, i as int) is None,
        },
    decreases s@.len() - i,
{
    if i >= s.len() {
        None
    } else if s[i] == QUOTE {
        let v: Vec<u8> = Vec::new();
        proof {
            assert(v@ =~= Seq::<u8>::empty());
        }
        Some((v, i + 1))
    } else if s[i] >= 32 && s[i] != QUOTE && s[i] != 92 {
        match scan_string_rec(s, i + 1) {
            Some((t, j)) => {
                let mut t = t;
                let ghost told = t@;
                t.insert(0, s[i]);
                proof {
                    assert(t@ =~= seq![s@[i as int]] + told);
                }
                Some((t, j))
            },
            None => None,
        }
    } else {
        None
    }
}

fn scan_string(s: &Vec<u8>, i: usize) -> (r: Option<(Vec<u8>, usize)>)
    ensures
        match r {
            Some((t, j)) => parse_string(s@, i as int) == Some((t@, j as int)) && i < j <= s@.len(),
            None => parse_string(s@, i as int) is None,
        },
{
    if i < s.len() && s[i] == QUOTE {
        scan_string_rec(s, i + 1)
    } else {
        None
    }
}

fn scan_num_rec(s: &Vec<u8>, i: usize, acc: u64) -> (r: Option<(u64, usize)>)
    requires
        i <= s@.len(),
    ensures
        match r {
            Some((n, j)) => parse_num_rec(s@, i as int, acc) == Some((n, j as int)) && i <= j
                <= s@.len(),
            None => parse_num_rec(s@, i as int, acc) is None,
        },
    decreases s@.len() - i,
{
    if i >= s.len() || s[i] < 48 || s[i] > 57 {
        Some((acc, i))
    } else {
        let d = s[i] - 48;
        if acc > 1844674407370955161u64 || (acc == 1844674407370955161u64 && d > 5) {
            proof {
                assert(acc * 10 + (s@[i as int] - 48) > u64::MAX);
            }
            None
        } else {
            proof {
                assert(acc * 10 + (s@[i as int] - 48) <= u64::MAX);
                assert(parse_num_rec(s@, i as int, acc) == parse_num_rec(
                    s@,
                    i as int + 1,
                    (acc * 10 + (s@[i as int] - 48)) as u64,
                ));
            }
            scan_num_rec(s, i + 1, acc * 10 + d as u64)
        }
    }
}

fn scan_num(s: &Vec<u8>, i: usize) -> (r: Option<(u64, usize)>)
    ensures
        match r {
            Some((n, j)) => parse_num(s@, i as int) == Some((n, j as int)) && i <= j <= s@.len(),
            None => parse_num(s@, i as int) is None,
        },
{
    if i < s.len() && 48 <= s[i] && s[i] <= 57 {
        scan_num_rec(s, i, 0)
    } else {
        None
    }
}

fn scan_scalar(s: &Vec<u8>, i: usize) -> (r: Option<(Scalar, usize)>)
    ensures
        match r {
            Some((v, j)) => parse_scalar(s@, i as int) == Some((v@, j as int)) && i <= j
                <= s@.len(),
            None => parse_scalar(s@, i as int) is None,
        },
{
    if i >= s.len() {
        None
    } else if s[i] == QUOTE {
        match scan_string(s, i) {
            Some((t, j)) => Some((Scalar::Str(t), j)),
            None => None,
        }
    } else if s[i] == 116 {
        if s.len() - i >= 4 && s[i + 1] == 114 && s[i + 2] == 117 && s[i + 3] == 101 {
            proof {
                assert(s@.subrange(i as int, i + 4 as int) =~= true_lit());
            }
            Some((Scalar::Bool(true), i + 4))
        } else {
            proof {
                if i + 4 <= s@.len() {
                    assert(s@.subrange(i as int, i + 4 as int) != true_lit()) by {
                        let sub = s@.subrange(i as int, i + 4 as int);
                        if sub == true_lit() {
                            assert(sub[1] == 114 && sub[2] == 117 && sub[3] == 101);
                        }
                    }
                }
            }
            None
        }
    } else if s[i] == 102 {
        if s.len() - i >= 5 && s[i + 1] == 97 && s[i + 2] == 108 && s[i + 3] == 115 && s[i + 4]
            == 101 {
            proof {
                assert(s@.subrange(i as int, i + 5 as int) =~= false_lit());
            }
            Some((Scalar::Bool(false), i + 5))
        } else {
            proof {
                if i + 5 <= s@.len() {
                    assert(s@.subrange(i as int, i + 5 as int) != false_lit()) by {
                        let sub = s@.subrange(i as int, i + 5 as int);
                        if sub == false_lit() {
                            assert(sub[1] == 97 && sub[2] == 108 && sub[3] == 115 && sub[4]
                                == 101);
                        }
                    }
                }
            }
            None
        }
    } else if 48 <= s[i] && s[i] <= 57 {
        match scan_num(s, i) {
            Some((n, j)) => Some((Scalar::Num(n), j)),
            None => None,
        }
    } else {
        None
    }
}

/// The fields the scanner has collected so far.
struct ScanAcc {
    name: Option<Vec<u8>>,
    description: Option<Vec<u8>>,
    asset_uri: Option<Vec<u8>>,
    timeable: Option<bool>,
    mergeable: Option<bool>,
    expiry: Option<u64>,
}

impl View for ScanAcc {
    type V = MetaAcc;

    closed spec fn view(&self) -> MetaAcc {
        MetaAcc {
            name: match self.name {
                Some(v) => Some(v@),
                None => None,
            },
            description: match self.description {
                Some(v) => Some(v@),
                None => None,
            },
            asset_uri: match self.asset_uri {
                Some(v) => Some(v@),
                None => None,
            },
            timeable: self.timeable,
            mergeable: self.mergeable,
            expiry: self.expiry,
        }
    }
}

fn apply_scan_member(acc: ScanAcc, k: Vec<u8>, v: Scalar) -> (r: Option<ScanAcc>)
    ensures
        match r {
            Some(a2) => apply_member(acc@, k@, v@) == Some(a2@),
            None => apply_member(acc@, k@, v@) is None,
        },
{
    let kn = crate::metadata::key_name_bytes();
    let kd = crate::metadata::key_description_bytes();
    let ka = crate::metadata::key_asset_bytes();
    let kt = crate::metadata::key_timeable_bytes();
    let km = crate::metadata::key_mergeable_bytes();
    let ks = crate::metadata::key_timestamp_bytes();
    if k == kn {
        proof {
            assert(k@ =~= key_name());
        }
        match (acc.name.is_none(), v) {
            (true, Scalar::Str(t)) => Some(ScanAcc { name: Some(t), ..acc }),
            _ => None,
        }
    } else if k == kd {
        proof {
            assert(k@ =~= key_description());
        }
        match (acc.description.is_none(), v) {
            (true, Scalar::Str(t)) => Some(ScanAcc { description: Some(t), ..acc }),
            _ => None,
        }
    } else if k == ka {
        proof {
            assert(k@ =~= key_asset());
        }
        match (acc.asset_uri.is_none(), v) {
            (true, Scalar::Str(t)) => Some(ScanAcc { asset_uri: Some(t), ..acc }),
            _ => None,
        }
    } else if k == kt {
        proof {
            assert(k@ =~= key_timeable());
        }
        match (acc.timeable.is_none(), v) {
            (true, Scalar::Bool(b)) => Some(ScanAcc { timeable: Some(b), ..acc }),
            _ => None,
        }
    } else if k == km {
        proof {
            assert(k@ =~= key_mergeable());
        }
        match (acc.mergeable.is_none(), v) {
            (true, Scalar::Bool(b)) => Some(ScanAcc { mergeable: Some(b), ..acc }),
            _ => None,
        }
    } else if k == ks {
        proof {
            assert(k@ =~= key_timestamp());
        }
        match (acc.expiry.is_none(), v) {
            (true, Scalar::Num(n)) => Some(ScanAcc { expiry: Some(n), ..acc }),
            _ => None,
        }
    } else {
        Some(acc)
    }
}

fn scan_members(s: &Vec<u8>, i: usize, acc: ScanAcc, fuel: usize) -> (r: Option<(ScanAcc, usize)>)
    ensures
        match r {
            Some((a2, j)) => parse_members(s@, i as int, acc@, fuel as nat) == Some(
                (a2@, j as int),
            ) && j <= s@.len(),
            None => parse_members(s@, i as int, acc@, fuel as nat) is None,
        },
    decreases fuel,
{
    if fuel == 0 {
        return None;
    }
    match scan_string(s, i) {
        None => None,
        Some((k, j)) => {
            if j < s.len() && s[j] == COLON {
                match scan_scalar(s, j + 1) {
                    None => None,
                    Some((v, e)) => match apply_scan_member(acc, k, v) {
                        None => None,
                        Some(acc2) => {
                            if e < s.len() && s[e] == COMMA {
                                scan_members(s, e + 1, acc2, fuel - 1)
                            } else if e < s.len() && s[e] == RBRACE {
                                Some((acc2, e + 1))
                            } else {
                                None
                            }
                        },
                    },
                }
            } else {
                None
            }
        },
    }
}

/// Decodes an untrusted payload into a descriptive record.
///
/// Succeeds exactly on the payloads that denote a record: a braced member
/// list with `name`, `description` and `asset` present, known keys typed and
/// unrepeated, and nothing after the closing brace. Every other payload
/// yields `DecodeError` and nothing else.
pub fn parse(payload: &Vec<u8>) -> (r: Result<TokenMetadata, Error>)
    ensures
        match r {
            Ok(m) => parse_spec(payload@) == Some(m@),
            Err(e) => parse_spec(payload@) is None && e == Error::DecodeError,
        },
{
    if payload.len() >= 1 && payload[0] == LBRACE {
        let acc0 = ScanAcc {
            name: None,
            description: None,
            asset_uri: None,
            timeable: None,
            mergeable: None,
            expiry: None,
        };
        match scan_members(payload, 1, acc0, payload.len()) {
            Some((acc, e)) => {
                if e == payload.len() {
                    match (acc.name, acc.description, acc.asset_uri) {
                        (Some(name), Some(description), Some(asset_uri)) => Ok(
                            TokenMetadata {
                                name,
                                description,
                                asset_uri,
                                timeable: acc.timeable,
                                mergeable: acc.mergeable,
                                expiry: acc.expiry,
                            },
                        ),
                        _ => Err(Error::DecodeError),
                    }
                } else {
                    Err(Error::DecodeError)
                }
            },
            None => Err(Error::DecodeError),
        }
    } else {
        Err(Error::DecodeError)
    }
}

/// A region equal to `a + b` splits into a region equal to `a` and one equal
/// to `b`.
proof fn lemma_region_split(s: Seq<u8>, i: int, a: Seq<u8>, b: Seq<u8>)
    requires
        0 <= i,
        i + a.len() + b.len() <= s.len(),
        s.subrange(i, i + a.len() + b.len()) == a + b,
    ensures
        s.subrange(i, i + a.len()) == a,
        s.subrange(i + a.len(), i + a.len() + b.len()) == b,
{
    assert forall|j: int| 0 <= j < a.len() implies s.subrange(i, i + a.len())[j] == a[j] by {
        assert(s.subrange(i, i + a.len() + b.len())[j] == (a + b)[j]);
    }
    assert(s.subrange(i, i + a.len()) =~= a);
    assert forall|j: int|
        0 <= j < b.len() implies s.subrange(i + a.len(), i + a.len() + b.len())[j] == b[j] by {
        assert(s.subrange(i + a.len(), i + a.len() + b.len())[j] == s[i + a.len() + j]);
        assert(s.subrange(i, i + a.len() + b.len())[a.len() + j] == s[i + a.len() + j]);
        assert((a + b)[a.len() + j] == b[j]);
    }
    assert(s.subrange(i + a.len(), i + a.len() + b.len()) =~= b);
}

/// Reading a string body over a plain region ending at a quote yields exactly
/// that region.
proof fn lemma_parse_string_plain_region(s: Seq<u8>, i: int, e: int)
    requires
        0 <= i <= e < s.len(),
        s[e] == QUOTE,
        forall|k: int| i <= k < e ==> plain_byte(#[trigger] s[k]),
    ensures
        parse_string_rec(s, i) == Some((s.subrange(i, e), e + 1)),
    decreases e - i,
{
    if i == e {
        assert(s.subrange(i, e) =~= Seq::<u8>::empty());
    } else {
        lemma_parse_string_plain_region(s, i + 1, e);
        assert(s.subrange(i, e) =~= seq![s[i]] + s.subrange(i + 1, e));
    }
}

/// Reading a string over a region holding `quoted(t)` with plain `t` yields
/// `t` and stops just past the closing quote.
proof fn lemma_parse_string_quoted(s: Seq<u8>, i: int, t: Seq<u8>)
    requires
        0 <= i,
        i + t.len() + 2 <= s.len(),
        plain(t),
        s.subrange(i, i + t.len() + 2) == quoted(t),
    ensures
        parse_string(s, i) == Some((t, i + t.len() + 2)),
{
    let e = i + 1 + t.len();
    assert(s[i] == QUOTE) by {
        assert(s.subrange(i, i + t.len() + 2)[0] == quoted(t)[0]);
    }
    assert(s[e] == QUOTE) by {
        assert(s.subrange(i, i + t.len() + 2)[1 + t.len() as int] == quoted(t)[1 + t.len() as int]);
        assert(quoted(t)[1 + t.len() as int] == QUOTE);
    }
    assert forall|k: int| i + 1 <= k < e implies plain_byte(#[trigger] s[k]) by {
        assert(s.subrange(i, i + t.len() + 2)[k - i] == quoted(t)[k - i]);
        assert(quoted(t)[k - i] == t[k - i - 1]);
    }
    lemma_parse_string_plain_region(s, i + 1, e);
    assert forall|j: int| 0 <= j < t.len() implies s.subrange(i + 1, e)[j] == t[j] by {
        assert(s.subrange(i, i + t.len() + 2)[1 + j] == quoted(t)[1 + j]);
        assert(quoted(t)[1 + j] == t[j]);
    }
    assert(s.subrange(i + 1, e) =~= t);
}

/// Reading digits over a digit region followed by a non-digit accumulates the
/// fold of that region.
proof fn lemma_parse_num_region(s: Seq<u8>, i: int, e: int, acc: u64)
    requires
        0 <= i <= e <= s.len(),
        forall|k: int| i <= k < e ==> is_digit(#[trigger] s[k]),
        e == s.len() || !is_digit(s[e]),
        fold_digits(acc as int, s.subrange(i, e)) <= u64::MAX,
    ensures
        parse_num_rec(s, i, acc) == Some(
            (fold_digits(acc as int, s.subrange(i, e)) as u64, e),
        ),
    decreases e - i,
{
    let d = s.subrange(i, e);
    if i == e {
        assert(d =~= Seq::<u8>::empty());
    } else {
        assert(d[0] == s[i]);
        assert(d.drop_first() =~= s.subrange(i + 1, e));
        let acc2 = acc * 10 + (s[i] - 48);
        assert(fold_digits(acc as int, d) == fold_digits(acc2, s.subrange(i + 1, e)));
        assert forall|k: int| 0 <= k < s.subrange(i + 1, e).len() implies is_digit(
            #[trigger] s.subrange(i + 1, e)[k],
        ) by {
            assert(s.subrange(i + 1, e)[k] == s[i + 1 + k]);
        }
        lemma_fold_digits_ge_acc(acc2, s.subrange(i + 1, e));
        lemma_parse_num_region(s, i + 1, e, acc2 as u64);
    }
}

/// Reading a number over a region holding the decimal digits of `n`, with a
/// non-digit after, yields `n`.
proof fn lemma_parse_num_dec(s: Seq<u8>, i: int, n: u64)
    requires
        0 <= i,
        i + dec_digits(n).len() <= s.len(),
        s.subrange(i, i + dec_digits(n).len()) == dec_digits(n),
        i + dec_digits(n).len() == s.len() || !is_digit(s[i + dec_digits(n).len()]),
    ensures
        parse_num(s, i) == Some((n, i + dec_digits(n).len())),
{
    let e = i + dec_digits(n).len();
    lemma_dec_digits_value(n);
    assert forall|k: int| i <= k < e implies is_digit(#[trigger] s[k]) by {
        assert(s.subrange(i, e)[k - i] == dec_digits(n)[k - i]);
    }
    assert(s[i] == dec_digits(n)[0]) by {
        assert(s.subrange(i, e)[0] == dec_digits(n)[0]);
    }
    lemma_parse_num_region(s, i, e, 0);
}

/// A scalar value whose text content could have come out of the encoder.
spec fn wf_scalar(v: ScalarVal) -> bool {
    match v {
        ScalarVal::Str(t) => plain(t),
        _ => true,
    }
}

/// A member whose key and value could have come out of the encoder.
spec fn wf_member(m: (Seq<u8>, ScalarVal)) -> bool {
    plain(m.0) && wf_scalar(m.1)
}

/// The wire bytes of a member list, comma-separated.
spec fn members_bytes(ms: Seq<(Seq<u8>, ScalarVal)>) -> Seq<u8>
    decreases ms.len(),
{
    if ms.len() == 0 {
        Seq::empty()
    } else if ms.len() == 1 {
        member_bytes(ms[0].0, ms[0].1)
    } else {
        member_bytes(ms[0].0, ms[0].1) + seq![COMMA] + members_bytes(ms.drop_first())
    }
}

/// Records a member list onto an accumulator, in order; the first offending
/// member makes the whole list malformed.
spec fn apply_members(acc: MetaAcc, ms: Seq<(Seq<u8>, ScalarVal)>) -> Option<MetaAcc>
    decreases ms.len(),
{
    if ms.len() == 0 {
        Some(acc)
    } else {
        match apply_member(acc, ms[0].0, ms[0].1) {
            None => None,
            Some(a) => apply_members(a, ms.drop_first()),
        }
    }
}

/// Reading a scalar over a region holding its wire bytes, with a comma or
/// closing brace after, yields that scalar.
proof fn lemma_parse_scalar_exact(s: Seq<u8>, i: int, v: ScalarVal)
    requires
        0 <= i,
        i + scalar_bytes(v).len() < s.len(),
        s.subrange(i, i + scalar_bytes(v).len()) == scalar_bytes(v),
        wf_scalar(v),
        s[i + scalar_bytes(v).len()] == COMMA || s[i + scalar_bytes(v).len()] == RBRACE,
    ensures
        parse_scalar(s, i) == Some((v, i + scalar_bytes(v).len())),
{
    let e = i + scalar_bytes(v).len();
    match v {
        ScalarVal::Str(t) => {
            assert(s[i] == QUOTE) by {
                assert(s.subrange(i, e)[0] == quoted(t)[0]);
            }
            lemma_parse_string_quoted(s, i, t);
        },
        ScalarVal::Bool(b) => {
            if b {
                assert(s.subrange(i, i + 4) =~= s.subrange(i, e));
                assert(s[i] == 116) by {
                    assert(s.subrange(i, e)[0] == true_lit()[0]);
                }
            } else {
                assert(s.subrange(i, i + 5) =~= s.subrange(i, e));
                assert(s[i] == 102) by {
                    assert(s.subrange(i, e)[0] == false_lit()[0]);
                }
            }
        },
        ScalarVal::Num(n) => {
            lemma_dec_digits_value(n);
            assert(s[i] == dec_digits(n)[0]) by {
                assert(s.subrange(i, e)[0] == dec_digits(n)[0]);
            }
            assert(is_digit(s[i]));
            lemma_parse_num_dec(s, i, n);
        },
    }
}

/// Every scalar takes at least one wire byte.
proof fn lemma_scalar_bytes_len(v: ScalarVal)
    ensures
        scalar_bytes(v).len() >= 1,
{
    match v {
        ScalarVal::Num(n) => lemma_dec_digits_value(n),
        _ => {},
    }
}

/// A member list takes at least one wire byte per member.
proof fn lemma_members_bytes_len(ms: Seq<(Seq<u8>, ScalarVal)>)
    ensures
        members_bytes(ms).len() >= ms.len(),
    decreases ms.len(),
{
    if ms.len() == 1 {
        lemma_scalar_bytes_len(ms[0].1);
    } else if ms.len() > 1 {
        lemma_scalar_bytes_len(ms[0].1);
        lemma_members_bytes_len(ms.drop_first());
    }
}

/// The wire bytes of two member lists in sequence: the lists joined by one
/// comma.
proof fn lemma_members_bytes_append(a: Seq<(Seq<u8>, ScalarVal)>, b: Seq<(Seq<u8>, ScalarVal)>)
    requires
        a.len() >= 1,
        b.len() >= 1,
    ensures
        members_bytes(a + b) == members_bytes(a) + seq![COMMA] + members_bytes(b),
    decreases a.len(),
{
    assert((a + b)[0] == a[0]);
    if a.len() == 1 {
        assert((a + b).drop_first() =~= b);
        assert(members_bytes(a + b) =~= members_bytes(a) + seq![COMMA] + members_bytes(b));
    } else {
        assert((a + b).drop_first() =~= a.drop_first() + b);
        lemma_members_bytes_append(a.drop_first(), b);
        assert(members_bytes(a + b) =~= members_bytes(a) + seq![COMMA] + members_bytes(b));
    }
}

/// Recording two member lists in sequence records the first, then the second.
proof fn lemma_apply_members_append(
    acc: MetaAcc,
    a: Seq<(Seq<u8>, ScalarVal)>,
    b: Seq<(Seq<u8>, ScalarVal)>,
)
    ensures
        apply_members(acc, a + b) == (match apply_members(acc, a) {
            None => None::<MetaAcc>,
            Some(x) => apply_members(x, b),
        }),
    decreases a.len(),
{
    if a.len() == 0 {
        assert(a + b =~= b);
    } else {
        assert((a + b)[0] == a[0]);
        match apply_member(acc, a[0].0, a[0].1) {
            None => {},
            Some(x) => {
                assert((a + b).drop_first() =~= a.drop_first() + b);
                lemma_apply_members_append(x, a.drop_first(), b);
            },
        }
    }
}

/// Reading one member over a region holding its wire bytes: the key, the
/// colon, and the value come out exactly.
proof fn lemma_parse_member_step(s: Seq<u8>, i: int, k: Seq<u8>, v: ScalarVal)
    requires
        0 <= i,
        i + member_bytes(k, v).len() < s.len(),
        s.subrange(i, i + member_bytes(k, v).len()) == member_bytes(k, v),
        plain(k),
        wf_scalar(v),
        s[i + member_bytes(k, v).len()] == COMMA || s[i + member_bytes(k, v).len()] == RBRACE,
    ensures
        parse_string(s, i) == Some((k, i + k.len() + 2)),
        s[i + k.len() + 2] == COLON,
        parse_scalar(s, i + k.len() + 3) == Some((v, i + member_bytes(k, v).len())),
{
    let qk = quoted(k);
    let rest = seq![COLON] + scalar_bytes(v);
    assert(member_bytes(k, v) =~= qk + rest);
    lemma_region_split(s, i, qk, rest);
    lemma_parse_string_quoted(s, i, k);
    let j = i + k.len() + 2;
    lemma_region_split(s, j, seq![COLON], scalar_bytes(v));
    assert(s[j] == COLON) by {
        assert(s.subrange(j, j + 1)[0] == seq![COLON][0]);
    }
    lemma_parse_scalar_exact(s, j + 1, v);
}

/// Reading a comma-separated member list followed by the closing brace
/// records exactly those members, or fails exactly when recording them fails.
proof fn lemma_parse_members_chain(
    s: Seq<u8>,
    i: int,
    ms: Seq<(Seq<u8>, ScalarVal)>,
    acc: MetaAcc,
    fuel: nat,
)
    requires
        ms.len() >= 1,
        fuel >= ms.len(),
        0 <= i,
        i + members_bytes(ms).len() + 1 <= s.len(),
        s.subrange(i, i + members_bytes(ms).len()) == members_bytes(ms),
        s[i + members_bytes(ms).len()] == RBRACE,
        forall|k: int| 0 <= k < ms.len() ==> wf_member(#[trigger] ms[k]),
    ensures
        parse_members(s, i, acc, fuel) == (match apply_members(acc, ms) {
            Some(a) => Some((a, i + members_bytes(ms).len() + 1)),
            None => None::<(MetaAcc, int)>,
        }),
    decreases ms.len(),
{
    let k = ms[0].0;
    let v = ms[0].1;
    let mb0 = member_bytes(k, v);
    assert(wf_member(ms[0]));
    if ms.len() == 1 {
        assert(members_bytes(ms) == mb0);
        lemma_parse_member_step(s, i, k, v);
        let e = i + mb0.len();
        match apply_member(acc, k, v) {
            None => {
                assert(apply_members(acc, ms) is None);
            },
            Some(acc2) => {
                assert(ms.drop_first() =~= Seq::<(Seq<u8>, ScalarVal)>::empty());
                assert(apply_members(acc2, ms.drop_first()) == Some(acc2));
                assert(apply_members(acc, ms) == Some(acc2));
                assert(parse_members(s, i, acc, fuel) == Some((acc2, e + 1)));
            },
        }
    } else {
        let rest = ms.drop_first();
        let mbr = members_bytes(rest);
        assert(members_bytes(ms) == mb0 + seq![COMMA] + mbr);
        assert(members_bytes(ms) =~= mb0 + (seq![COMMA] + mbr));
        lemma_region_split(s, i, mb0, seq![COMMA] + mbr);
        let e = i + mb0.len();
        lemma_region_split(s, e, seq![COMMA], mbr);
        assert(s[e] == COMMA) by {
            assert(s.subrange(e, e + 1)[0] == seq![COMMA][0]);
        }
        lemma_parse_member_step(s, i, k, v);
        match apply_member(acc, k, v) {
            None => {
                assert(apply_members(acc, ms) is None);
            },
            Some(acc2) => {
                assert forall|k2: int| 0 <= k2 < rest.len() implies wf_member(
                    #[trigger] rest[k2],
                ) by {
                    assert(rest[k2] == ms[k2 + 1]);
                }
                lemma_parse_members_chain(s, e + 1, rest, acc2, (fuel - 1) as nat);
                assert(apply_members(acc, ms) == apply_members(acc2, rest));
            },
        }
    }
}

/// The three required members, in the order the encoder writes them.
spec fn base_members(m: MetaSpec) -> Seq<(Seq<u8>, ScalarVal)> {
    seq![
        (key_name(), ScalarVal::Str(m.name)),
        (key_description(), ScalarVal::Str(m.description)),
        (key_asset(), ScalarVal::Str(m.asset_uri)),
    ]
}

/// The `timeable` member, when present.
spec fn timeable_members(m: MetaSpec) -> Seq<(Seq<u8>, ScalarVal)> {
    match m.timeable {
        Some(b) => seq![(key_timeable(), ScalarVal::Bool(b))],
        None => Seq::empty(),
    }
}

/// The `mergeable` member, when present.
spec fn mergeable_members(m: MetaSpec) -> Seq<(Seq<u8>, ScalarVal)> {
    match m.mergeable {
        Some(b) => seq![(key_mergeable(), ScalarVal::Bool(b))],
        None => Seq::empty(),
    }
}

/// The `timestamp` member, when present.
spec fn expiry_members(m: MetaSpec) -> Seq<(Seq<u8>, ScalarVal)> {
    match m.expiry {
        Some(n) => seq![(key_timestamp(), ScalarVal::Num(n))],
        None => Seq::empty(),
    }
}

/// Every member the encoder writes for `m`, in writing order.
spec fn members_of(m: MetaSpec) -> Seq<(Seq<u8>, ScalarVal)> {
    base_members(m) + timeable_members(m) + mergeable_members(m) + expiry_members(m)
}

/// The accumulator that recording exactly the members of `m` produces.
spec fn acc_of(m: MetaSpec) -> MetaAcc {
    MetaAcc {
        name: Some(m.name),
        description: Some(m.description),
        asset_uri: Some(m.asset_uri),
        timeable: m.timeable,
        mergeable: m.mergeable,
        expiry: m.expiry,
    }
}

/// The six wire keys are plain and pairwise distinct where their lengths
/// coincide.
proof fn lemma_keys_facts()
    ensures
        plain(key_name()),
        plain(key_description()),
        plain(key_asset()),
        plain(key_timeable()),
        plain(key_mergeable()),
        plain(key_timestamp()),
        key_name().len() == 4,
        key_description().len() == 11,
        key_asset().len() == 5,
        key_timeable().len() == 8,
        key_mergeable().len() == 9,
        key_timestamp().len() == 9,
        key_timestamp() != key_mergeable(),
{
    assert(key_timestamp()[0] == 116);
    assert(key_mergeable()[0] == 109);
    assert forall|i: int| 0 <= i < key_name().len() implies plain_byte(#[trigger] key_name()[i]) by {
        if i == 0 {
        } else if i == 1 {
        } else if i == 2 {
        } else {
        }
    }
    assert forall|i: int|
        0 <= i < key_description().len() implies plain_byte(#[trigger] key_description()[i]) by {
        assert(32 <= key_description()[i] && key_description()[i] != QUOTE && key_description()[i]
            != 92);
    }
    assert forall|i: int| 0 <= i < key_asset().len() implies plain_byte(#[trigger] key_asset()[i]) by {
        assert(32 <= key_asset()[i] && key_asset()[i] != QUOTE && key_asset()[i] != 92);
    }
    assert forall|i: int|
        0 <= i < key_timeable().len() implies plain_byte(#[trigger] key_timeable()[i]) by {
        assert(32 <= key_timeable()[i] && key_timeable()[i] != QUOTE && key_timeable()[i] != 92);
    }
    assert forall|i: int|
        0 <= i < key_mergeable().len() implies plain_byte(#[trigger] key_mergeable()[i]) by {
        assert(32 <= key_mergeable()[i] && key_mergeable()[i] != QUOTE && key_mergeable()[i] != 92);
    }
    assert forall|i: int|
        0 <= i < key_timestamp().len() implies plain_byte(#[trigger] key_timestamp()[i]) by {
        assert(32 <= key_timestamp()[i] && key_timestamp()[i] != QUOTE && key_timestamp()[i] != 92);
    }
}

/// The encoder's output is the brace-wrapped member list of `m`, and
/// recording that list collects exactly the fields of `m`.
#[verifier::rlimit(100)]
proof fn lemma_encode_members(m: MetaSpec)
    ensures
        encode_spec(m) == seq![LBRACE] + members_bytes(members_of(m)) + seq![RBRACE],
        apply_members(empty_acc(), members_of(m)) == Some(acc_of(m)),
        finish_acc(acc_of(m)) == Some(m),
        members_of(m).len() >= 3,
{
    lemma_keys_facts();
    let bn = (key_name(), ScalarVal::Str(m.name));
    let bd = (key_description(), ScalarVal::Str(m.description));
    let ba = (key_asset(), ScalarVal::Str(m.asset_uri));
    let base = base_members(m);
    let tm = timeable_members(m);
    let gm = mergeable_members(m);
    let em = expiry_members(m);

    // The wire bytes of the base members.
    assert(base.drop_first() =~= seq![bd, ba]);
    assert(seq![bd, ba].drop_first() =~= seq![ba]);
    assert(members_bytes(seq![ba]) == member_bytes(key_asset(), ScalarVal::Str(m.asset_uri)));
    assert(members_bytes(seq![bd, ba]) == member_bytes(key_description(), ScalarVal::Str(m.description))
        + seq![COMMA] + members_bytes(seq![ba]));
    assert(members_bytes(base) == member_bytes(key_name(), ScalarVal::Str(m.name)) + seq![COMMA]
        + members_bytes(seq![bd, ba]));

    // The wire bytes of the whole member list, option by option.
    let bt = base + tm;
    if m.timeable is Some {
        lemma_members_bytes_append(base, tm);
        assert(members_bytes(tm) == member_bytes(key_timeable(), ScalarVal::Bool(
            m.timeable->Some_0,
        )));
    } else {
        assert(bt =~= base);
    }
    let btg = bt + gm;
    if m.mergeable is Some {
        assert(bt.len() >= 1);
        lemma_members_bytes_append(bt, gm);
        assert(members_bytes(gm) == member_bytes(key_mergeable(), ScalarVal::Bool(
            m.mergeable->Some_0,
        )));
    } else {
        assert(btg =~= bt);
    }
    let all = btg + em;
    if m.expiry is Some {
        assert(btg.len() >= 1);
        lemma_members_bytes_append(btg, em);
        assert(members_bytes(em) == member_bytes(key_timestamp(), ScalarVal::Num(
            m.expiry->Some_0,
        )));
    } else {
        assert(all =~= btg);
    }
    assert(members_of(m) == all);
    assert(encode_spec(m) =~= seq![LBRACE] + members_bytes(all) + seq![RBRACE]);

    // Recording the members collects the fields of m.
    let acc0 = empty_acc();
    let acc1 = MetaAcc { name: Some(m.name), ..acc0 };
    let acc2 = MetaAcc { description: Some(m.description), ..acc1 };
    let acc3 = MetaAcc { asset_uri: Some(m.asset_uri), ..acc2 };
    assert(apply_member(acc0, key_name(), ScalarVal::Str(m.name)) == Some(acc1));
    assert(apply_member(acc1, key_description(), ScalarVal::Str(m.description)) == Some(acc2));
    assert(apply_member(acc2, key_asset(), ScalarVal::Str(m.asset_uri)) == Some(acc3));
    assert(apply_members(acc3, Seq::<(Seq<u8>, ScalarVal)>::empty()) == Some(acc3));
    assert(apply_members(acc2, seq![ba]) == Some(acc3)) by {
        assert(seq![ba].drop_first() =~= Seq::<(Seq<u8>, ScalarVal)>::empty());
        assert(apply_members(acc3, seq![ba].drop_first()) == Some(acc3));
    }
    assert(apply_members(acc1, seq![bd, ba]) == Some(acc3)) by {
        assert(seq![bd, ba].drop_first() =~= seq![ba]);
    }
    assert(apply_members(acc0, base) == Some(acc3)) by {
        assert(base.drop_first() =~= seq![bd, ba]);
    }

    let acc4 = MetaAcc { timeable: m.timeable, ..acc3 };
    lemma_apply_members_append(acc0, base, tm);
    assert(apply_members(acc3, tm) == Some(acc4)) by {
        match m.timeable {
            Some(b) => {
                assert(tm[0] == (key_timeable(), ScalarVal::Bool(b)));
                assert(apply_member(acc3, key_timeable(), ScalarVal::Bool(b)) == Some(acc4));
                assert(tm.drop_first() =~= Seq::<(Seq<u8>, ScalarVal)>::empty());
                assert(apply_members(acc4, tm.drop_first()) == Some(acc4));
            },
            None => {
                assert(acc4 == acc3);
            },
        }
    }
    let acc5 = MetaAcc { mergeable: m.mergeable, ..acc4 };
    lemma_apply_members_append(acc0, bt, gm);
    assert(apply_members(acc4, gm) == Some(acc5)) by {
        match m.mergeable {
            Some(b) => {
                assert(gm[0] == (key_mergeable(), ScalarVal::Bool(b)));
                assert(apply_member(acc4, key_mergeable(), ScalarVal::Bool(b)) == Some(acc5));
                assert(gm.drop_first() =~= Seq::<(Seq<u8>, ScalarVal)>::empty());
                assert(apply_members(acc5, gm.drop_first()) == Some(acc5));
            },
            None => {
                assert(acc5 == acc4);
            },
        }
    }
    let acc6 = MetaAcc { expiry: m.expiry, ..acc5 };
    lemma_apply_members_append(acc0, btg, em);
    assert(apply_members(acc5, em) == Some(acc6)) by {
        match m.expiry {
            Some(n) => {
                assert(em[0] == (key_timestamp(), ScalarVal::Num(n)));
                assert(apply_member(acc5, key_timestamp(), ScalarVal::Num(n)) == Some(acc6));
                assert(em.drop_first() =~= Seq::<(Seq<u8>, ScalarVal)>::empty());
                assert(apply_members(acc6, em.drop_first()) == Some(acc6));
            },
            None => {
                assert(acc6 == acc5);
            },
        }
    }
    assert(acc6 == acc_of(m));
    assert(apply_members(acc0, members_of(m)) == Some(acc_of(m)));
}

/// Decoding inverts encoding: a record whose text fields hold only plain
/// bytes — no quote, no backslash, no control byte, exactly what this
/// system's own records hold — comes back unchanged from its wire payload.
pub proof fn lemma_encode_parse_roundtrip(m: MetaSpec)
    requires
        plain(m.name),
        plain(m.description),
        plain(m.asset_uri),
    ensures
        parse_spec(encode_spec(m)) == Some(m),
{
    lemma_keys_facts();
    lemma_encode_members(m);
    let s = encode_spec(m);
    let ms = members_of(m);
    let mb = members_bytes(ms);
    lemma_members_bytes_len(ms);

    assert(s[0] == LBRACE);
    assert(s.len() == mb.len() + 2);
    assert(s.subrange(0, s.len() as int) =~= s);
    assert(s.subrange(0, s.len() as int) =~= seq![LBRACE] + (mb + seq![RBRACE]));
    lemma_region_split(s, 0, seq![LBRACE], mb + seq![RBRACE]);
    lemma_region_split(s, 1, mb, seq![RBRACE]);
    assert(s[1 + mb.len() as int] == RBRACE) by {
        assert(s.subrange(1 + mb.len() as int, s.len() as int)[0] == seq![RBRACE][0]);
    }

    assert forall|k: int| 0 <= k < ms.len() implies wf_member(#[trigger] ms[k]) by {
        let base = base_members(m);
        let tm = timeable_members(m);
        let gm = mergeable_members(m);
        let em = expiry_members(m);
        if k < base.len() {
            assert(ms[k] == base[k]);
            if k == 0 {
            } else if k == 1 {
            } else {
            }
        } else if k < base.len() + tm.len() {
            assert(ms[k] == tm[k - base.len()]);
        } else if k < base.len() + tm.len() + gm.len() {
            assert(ms[k] == gm[k - base.len() - tm.len()]);
        } else {
            assert(ms[k] == em[k - base.len() - tm.len() - gm.len()]);
        }
    }

    lemma_parse_members_chain(s, 1, ms, empty_acc(), s.len() as nat);
    assert(parse_members(s, 1, empty_acc(), s.len() as nat) == Some(
        (acc_of(m), s.len() as int),
    ));
}

} // verus!
