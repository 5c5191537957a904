use vstd::prelude::*;
use vstd::string::StrSliceExecFns;
use vstd::string::StringSliceAdditionalSpecFns;

use crate::numeral::dec_digits;
use crate::numeral::join_dec;
use crate::numeral::join_ids;

verus! {

/// ASCII `"`.
pub const QUOTE: u8 = 34;

/// ASCII `,`.
pub const COMMA: u8 = 44;

/// ASCII `:`.
pub const COLON: u8 = 58;

/// ASCII `{`.
pub const LBRACE: u8 = 123;

/// ASCII `}`.
pub const RBRACE: u8 = 125;

/// A byte that may stand inside an encoded text field: printable and neither
/// the quote nor the backslash, so the encoding never needs an escape.
pub open spec fn plain_byte(b: u8) -> bool {
    b >= 32 && b != QUOTE && b != 92
}

/// Every byte of `s` is plain.
pub open spec fn plain(s: Seq<u8>) -> bool {
    forall|i: int| 0 <= i < s.len() ==> plain_byte(#[trigger] s[i])
}

/// The mathematical value of a descriptive record: what a payload denotes.
pub struct MetaSpec {
    /// Display name.
    pub name: Seq<u8>,
    /// Free-form description.
    pub description: Seq<u8>,
    /// Locator of the token's asset.
    pub asset_uri: Seq<u8>,
    /// Absent or `true` means the token may be scheduled.
    pub timeable: Option<bool>,
    /// Absent or `true` means the token may be merged.
    pub mergeable: Option<bool>,
    /// Sweep-eligibility timestamp; absent defaults to zero.
    pub expiry: Option<u64>,
}

/// The descriptive record attached to a mint request, decoded from an
/// untrusted payload. The three text fields are always present; the
/// lifecycle fields are optional and default to the permissive reading.
#[derive(Debug, PartialEq, Eq)]
pub struct TokenMetadata {
    /// Display name.
    pub name: Vec<u8>,
    /// Free-form description.
    pub description: Vec<u8>,
    /// Locator of the token's asset.
    pub asset_uri: Vec<u8>,
    /// Absent or `true` means the token may be scheduled.
    pub timeable: Option<bool>,
    /// Absent or `true` means the token may be merged.
    pub mergeable: Option<bool>,
    /// Sweep-eligibility timestamp; absent defaults to zero.
    pub expiry: Option<u64>,
}

impl View for TokenMetadata {
    type V = MetaSpec;

    open spec fn view(&self) -> MetaSpec {
        MetaSpec {
            name: self.name@,
            description: self.description@,
            asset_uri: self.asset_uri@,
            timeable: self.timeable,
            mergeable: self.mergeable,
            expiry: self.expiry,
        }
    }
}

/// The effective scheduling eligibility: only an explicit `false` forbids it.
pub open spec fn timeable_of(m: MetaSpec) -> bool {
    m.timeable != Some(false)
}

/// The effective merge eligibility: only an explicit `false` forbids it.
pub open spec fn mergeable_of(m: MetaSpec) -> bool {
    m.mergeable != Some(false)
}

/// The effective expiry: zero when absent.
pub open spec fn expiry_of(m: MetaSpec) -> u64 {
    match m.expiry {
        Some(e) => e,
        None => 0,
    }
}

impl TokenMetadata {
    /// Whether the record allows scheduling; absent defaults to allowed.
    pub fn is_timeable(&self) -> (r: bool)
        ensures
            r == timeable_of(self@),
    {
        match self.timeable {
            Some(b) => b,
            None => true,
        }
    }

    /// Whether the record allows merging; absent defaults to allowed.
    pub fn is_mergeable(&self) -> (r: bool)
        ensures
            r == mergeable_of(self@),
    {
        match self.mergeable {
            Some(b) => b,
            None => true,
        }
    }

    /// The expiry timestamp; absent defaults to zero.
    pub fn expiry_or_default(&self) -> (r: u64)
        ensures
            r == expiry_of(self@),
    {
        match self.expiry {
            Some(e) => e,
            None => 0,
        }
    }
}

/// The wire key `name`.
pub open spec fn key_name() -> Seq<u8> {
    seq![110u8, 97u8, 109u8, 101u8]
}

/// The wire key `description`.
pub open spec fn key_description() -> Seq<u8> {
    seq![100u8, 101u8, 115u8, 99u8, 114u8, 105u8, 112u8, 116u8, 105u8, 111u8, 110u8]
}

/// The wire key `asset`.
pub open spec fn key_asset() -> Seq<u8> {
    seq![97u8, 115u8, 115u8, 101u8, 116u8]
}

/// The wire key `timeable`.
pub open spec fn key_timeable() -> Seq<u8> {
    seq![116u8, 105u8, 109u8, 101u8, 97u8, 98u8, 108u8, 101u8]
}

/// The wire key `mergeable`.
pub open spec fn key_mergeable() -> Seq<u8> {
    seq![109u8, 101u8, 114u8, 103u8, 101u8, 97u8, 98u8, 108u8, 101u8]
}

/// The wire key `timestamp`, which carries the expiry.
pub open spec fn key_timestamp() -> Seq<u8> {
    seq![116u8, 105u8, 109u8, 101u8, 115u8, 116u8, 97u8, 109u8, 112u8]
}

/// The literal `true`.
pub open spec fn true_lit() -> Seq<u8> {
    seq![116u8, 114u8, 117u8, 101u8]
}

/// The literal `false`.
pub open spec fn false_lit() -> Seq<u8> {
    seq![102u8, 97u8, 108u8, 115u8, 101u8]
}

/// A scalar wire value: the only value shapes the format carries.
pub enum ScalarVal {
    /// A quoted text value.
    Str(Seq<u8>),
    /// A bare `true` or `false`.
    Bool(bool),
    /// An unsigned decimal number.
    Num(u64),
}

/// `s` between quotes.
pub open spec fn quoted(s: Seq<u8>) -> Seq<u8> {
    seq![QUOTE] + s + seq![QUOTE]
}

/// The wire bytes of `true` or `false`.
pub open spec fn bool_lit(b: bool) -> Seq<u8> {
    if b {
        true_lit()
    } else {
        false_lit()
    }
}

/// The wire bytes of one scalar value.
pub open spec fn scalar_bytes(v: ScalarVal) -> Seq<u8> {
    match v {
        ScalarVal::Str(s) => quoted(s),
        ScalarVal::Bool(b) => bool_lit(b),
        ScalarVal::Num(n) => dec_digits(n),
    }
}

/// The wire bytes of one `"key":value` member.
pub open spec fn member_bytes(k: Seq<u8>, v: ScalarVal) -> Seq<u8> {
    quoted(k) + seq![COLON] + scalar_bytes(v)
}

/// An optional boolean member together with its leading comma; empty when
/// absent.
pub open spec fn opt_bool_member(k: Seq<u8>, o: Option<bool>) -> Seq<u8> {
    match o {
        Some(b) => seq![COMMA] + member_bytes(k, ScalarVal::Bool(b)),
        None => Seq::empty(),
    }
}

/// An optional numeric member together with its leading comma; empty when
/// absent.
pub open spec fn opt_num_member(k: Seq<u8>, o: Option<u64>) -> Seq<u8> {
    match o {
        Some(n) => seq![COMMA] + member_bytes(k, ScalarVal::Num(n)),
        None => Seq::empty(),
    }
}

/// The wire payload of a record: the three text fields in fixed order, then
/// whichever lifecycle fields are present.
pub open spec fn encode_spec(m: MetaSpec) -> Seq<u8> {
    seq![LBRACE] + member_bytes(key_name(), ScalarVal::Str(m.name)) + seq![COMMA] + member_bytes(
        key_description(),
        ScalarVal::Str(m.description),
    ) + seq![COMMA] + member_bytes(key_asset(), ScalarVal::Str(m.asset_uri)) + opt_bool_member(
        key_timeable(),
        m.timeable,
    ) + opt_bool_member(key_mergeable(), m.mergeable) + opt_num_member(key_timestamp(), m.expiry)
        + seq![RBRACE]
}

/// Appends `s` between quotes.
fn push_quoted(out: &mut Vec<u8>, s: &Vec<u8>)
    ensures
        final(out)@ == old(out)@ + quoted(s@),
{
    out.push(QUOTE);
    out.extend_from_slice(s.as_slice());
    out.push(QUOTE);
    proof {
        assert(final(out)@ =~= old(out)@ + quoted(s@));
    }
}

/// Appends `true` or `false`.
fn push_bool(out: &mut Vec<u8>, b: bool)
    ensures
        final(out)@ == old(out)@ + bool_lit(b),
{
    if b {
        out.push(116);
        out.push(114);
        out.push(117);
        out.push(101);
    } else {
        out.push(102);
        out.push(97);
        out.push(108);
        out.push(115);
        out.push(101);
    }
    proof {
        assert(final(out)@ =~= old(out)@ + bool_lit(b));
    }
}

/// The `name` key as bytes.
pub(crate) fn key_name_bytes() -> (r: Vec<u8>)
    ensures
        r@ == key_name(),
{
    let mut v: Vec<u8> = Vec::new();
    v.push(110);
    v.push(97);
    v.push(109);
    v.push(101);
    proof {
        assert(v@ =~= key_name());
    }
    v
}

/// The `description` key as bytes.
pub(crate) fn key_description_bytes() -> (r: Vec<u8>)
    ensures
        r@ == key_description(),
{
    let mut v: Vec<u8> = Vec::new();
    v.push(100);
    v.push(101);
    v.push(115);
    v.push(99);
    v.push(114);
    v.push(105);
    v.push(112);
    v.push(116);
    v.push(105);
    v.push(111);
    v.push(110);
    proof {
        assert(v@ =~= key_description());
    }
    v
}

/// The `asset` key as bytes.
pub(crate) fn key_asset_bytes() -> (r: Vec<u8>)
    ensures
        r@ == key_asset(),
{
    let mut v: Vec<u8> = Vec::new();
    v.push(97);
    v.push(115);
    v.push(115);
    v.push(101);
    v.push(116);
    proof {
        assert(v@ =~= key_asset());
    }
    v
}

/// The `timeable` key as bytes.
pub(crate) fn key_timeable_bytes() -> (r: Vec<u8>)
    ensures
        r@ == key_timeable(),
{
    let mut v: Vec<u8> = Vec::new();
    v.push(116);
    v.push(105);
    v.push(109);
    v.push(101);
    v.push(97);
    v.push(98);
    v.push(108);
    v.push(101);
    proof {
        assert(v@ =~= key_timeable());
    }
    v
}

/// The `mergeable` key as bytes.
pub(crate) fn key_mergeable_bytes() -> (r: Vec<u8>)
    ensures
        r@ == key_mergeable(),
{
    let mut v: Vec<u8> = Vec::new();
    v.push(109);
    v.push(101);
    v.push(114);
    v.push(103);
    v.push(101);
    v.push(97);
    v.push(98);
    v.push(108);
    v.push(101);
    proof {
        assert(v@ =~= key_mergeable());
    }
    v
}

/// The `timestamp` key as bytes.
pub(crate) fn key_timestamp_bytes() -> (r: Vec<u8>)
    ensures
        r@ == key_timestamp(),
{
    let mut v: Vec<u8> = Vec::new();
    v.push(116);
    v.push(105);
    v.push(109);
    v.push(101);
    v.push(115);
    v.push(116);
    v.push(97);
    v.push(109);
    v.push(112);
    proof {
        assert(v@ =~= key_timestamp());
    }
    v
}

/// Appends one `"key":` prefix.
fn push_key(out: &mut Vec<u8>, key: &Vec<u8>)
    ensures
        final(out)@ == old(out)@ + quoted(key@) + seq![COLON],
{
    push_quoted(out, key);
    out.push(COLON);
    proof {
        assert(final(out)@ =~= old(out)@ + quoted(key@) + seq![COLON]);
    }
}

/// Encodes a record back to its wire payload. This is the encoding whose
/// decoding `parse` inverts on records with plain text fields.
#[verifier::rlimit(100)]
pub fn encode(m: &TokenMetadata) -> (r: Vec<u8>)
    ensures
        r@ == encode_spec(m@),
{
    let mut out: Vec<u8> = Vec::new();
    out.push(LBRACE);
    let kn = key_name_bytes();
    push_key(&mut out, &kn);
    push_quoted(&mut out, &m.name);
    out.push(COMMA);
    let kd = key_description_bytes();
    push_key(&mut out, &kd);
    push_quoted(&mut out, &m.description);
    out.push(COMMA);
    let ka = key_asset_bytes();
    push_key(&mut out, &ka);
    push_quoted(&mut out, &m.asset_uri);
    proof {
        assert(out@ =~= seq![LBRACE] + member_bytes(key_name(), ScalarVal::Str(m@.name))
            + seq![COMMA] + member_bytes(key_description(), ScalarVal::Str(m@.description))
            + seq![COMMA] + member_bytes(key_asset(), ScalarVal::Str(m@.asset_uri)));
    }
    let ghost base = out@;
    match m.timeable {
        Some(b) => {
            out.push(COMMA);
            let kt = key_timeable_bytes();
            push_key(&mut out, &kt);
            push_bool(&mut out, b);
        },
        None => {},
    }
    proof {
        assert(out@ =~= base + opt_bool_member(key_timeable(), m@.timeable));
    }
    let ghost base2 = out@;
    match m.mergeable {
        Some(b) => {
            out.push(COMMA);
            let km = key_mergeable_bytes();
            push_key(&mut out, &km);
            push_bool(&mut out, b);
        },
        None => {},
    }
    proof {
        assert(out@ =~= base2 + opt_bool_member(key_mergeable(), m@.mergeable));
    }
    let ghost base3 = out@;
    match m.expiry {
        Some(n) => {
            out.push(COMMA);
            let ks = key_timestamp_bytes();
            push_key(&mut out, &ks);
            let mut digits = crate::numeral::u64_to_dec(n);
            out.append(&mut digits);
        },
        None => {},
    }
    proof {
        assert(out@ =~= base3 + opt_num_member(key_timestamp(), m@.expiry));
    }
    out.push(RBRACE);
    proof {
        assert(out@ =~= encode_spec(m@));
    }
    out
}

/// The fixed name of a merge-produced token.
pub open spec fn merged_name() -> Seq<u8> {
    "Dappend Merged Nft".spec_bytes()
}

/// The fixed asset locator of a merge-produced token.
pub open spec fn merged_asset() -> Seq<u8> {
    "https://ipfs.io/ipfs/bafkreieo73godjrxffwufu36rks7ro3uno4zrkm5vne4bl6jhojyxvhjci".spec_bytes()
}

/// The description of a merge-produced token: it lists the consumed ids,
/// comma-joined, in input order.
pub open spec fn merged_description(ids: Seq<u64>) -> Seq<u8> {
    "We merged ".spec_bytes() + join_dec(ids) + " token ids".spec_bytes()
}

/// The whole record a merge mints: fixed name and asset, the id-listing
/// description, and no lifecycle fields, so the token is a plain one.
pub open spec fn merged_metadata(ids: Seq<u64>) -> MetaSpec {
    MetaSpec {
        name: merged_name(),
        description: merged_description(ids),
        asset_uri: merged_asset(),
        timeable: None,
        mergeable: None,
        expiry: None,
    }
}

/// Builds the record for the token that replaces the merged ones.
pub fn merged_nft_metadata(ids: &Vec<u64>) -> (m: TokenMetadata)
    ensures
        m@ == merged_metadata(ids@),
{
    let mut description: Vec<u8> = "We merged ".as_bytes_vec();
    let mut joined = join_ids(ids);
    description.append(&mut joined);
    let mut suffix: Vec<u8> = " token ids".as_bytes_vec();
    description.append(&mut suffix);
    let m = TokenMetadata {
        name: "Dappend Merged Nft".as_bytes_vec(),
        description,
        asset_uri: "https://ipfs.io/ipfs/bafkreieo73godjrxffwufu36rks7ro3uno4zrkm5vne4bl6jhojyxvhjci".as_bytes_vec(),
        timeable: None,
        mergeable: None,
        expiry: None,
    };
    proof {
        assert(m@.description =~= merged_description(ids@));
    }
    m
}

} // verus!
