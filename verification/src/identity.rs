//! Identities: 128-bit numbers written as UUIDs.
use vstd::prelude::*;

use crate::ordered;
use crate::sequences;
use crate::text;

verus! {

/// The value of one hexadecimal digit.
pub open spec fn hex_digit(c: char) -> Option<nat> {
    if '0' <= c <= '9' {
        Some((c as nat - '0' as nat) as nat)
    } else if 'a' <= c <= 'f' {
        Some((c as nat - 'a' as nat + 10) as nat)
    } else if 'A' <= c <= 'F' {
        Some((c as nat - 'A' as nat + 10) as nat)
    } else {
        None
    }
}

/// The number that a run of hexadecimal digits writes, the most significant digit first.
pub open spec fn hex_number(s: Seq<char>) -> Option<nat>
    decreases s.len(),
{
    if s.len() == 0 {
        Some(0)
    } else {
        match (hex_number(s.drop_last()), hex_digit(s.last())) {
            (Some(n), Some(d)) => Some(16 * n + d),
            _ => None,
        }
    }
}

/// The digits of a hyphenated UUID, without its hyphens.
pub open spec fn unhyphenated(s: Seq<char>) -> Seq<char> {
    s.take(8) + s.subrange(9, 13) + s.subrange(14, 18) + s.subrange(19, 23) + s.skip(24)
}

/// The number that a hyphenated UUID writes.
pub open spec fn hyphenated_number(s: Seq<char>) -> Option<nat> {
    if s.len() == 36 && s[8] == '-' && s[13] == '-' && s[18] == '-' && s[23] == '-' {
        hex_number(unhyphenated(s))
    } else {
        None
    }
}

/// Whether a text begins with `urn:uuid:`, letters in either case.
pub open spec fn has_urn_prefix(s: Seq<char>) -> bool {
    s.len() >= 9 && forall|i: int|
        0 <= i < 9 ==> (#[trigger] s[i] == "urn:uuid:"@[i] || s[i] == "URN:UUID:"@[i])
}

/// The number that a UUID writes: 32 digits, or hyphenated, bare, in braces or behind `urn:uuid:`.
pub open spec fn uuid_number(s: Seq<char>) -> Option<nat> {
    if s.len() == 32 {
        hex_number(s)
    } else if s.len() == 38 && s[0] == '{' && s[37] == '}' {
        hyphenated_number(s.subrange(1, 37))
    } else if s.len() == 45 && has_urn_prefix(s) {
        hyphenated_number(s.skip(9))
    } else {
        hyphenated_number(s)
    }
}

/// The hyphenated form of an identity, in lower case.
pub open spec fn uuid_text(v: u128) -> Seq<char> {
    let h = text::hex_text(v as nat, 32);
    h.take(8).push('-') + h.subrange(8, 12).push('-') + h.subrange(12, 16).push('-')
        + h.subrange(16, 20).push('-') + h.skip(20)
}

/// A text was given for an identity that writes none.
#[derive(Clone, Debug, Eq, PartialEq)]
pub struct InvalidId {
    pub reason: String,
}

/// What `Uuid::parse_str` says of a text that writes no UUID.
pub uninterp spec fn uuid_complaint(text: Seq<char>) -> Seq<char>;

/// What reading an identity from a text comes to.
pub open spec fn reads_as(text: Seq<char>, r: Result<u128, InvalidId>) -> bool {
    match r {
        Ok(v) => uuid_number(text) == Some(v as nat),
        Err(error) => uuid_number(text) is None && error.reason@ == uuid_complaint(text),
    }
}

/// Reads a UUID with `Uuid::parse_str`, which accepts 32 hexadecimal digits, or the hyphenated
/// form bare, in braces or behind `urn:uuid:`, and refuses every other text, with the wording of
/// its error. The number is the value of the digits, the first of them most significant
/// (`Uuid::as_u128`).
#[verifier::external_body]
fn parse_uuid(text: &str) -> (r: Result<u128, InvalidId>)
    ensures
        match r {
            Ok(v) => uuid_number(text@) == Some(v as nat),
            Err(error) => uuid_number(text@) is None && error.reason@ == uuid_complaint(text@),
        },
{
    match uuid::Uuid::parse_str(text) {
        Ok(id) => Ok(id.as_u128()),
        Err(error) => Err(InvalidId { reason: error.to_string() }),
    }
}

/// Writes a UUID as its `Display` does: hyphenated, in lower case.
#[verifier::external_body]
fn write_uuid(v: u128) -> (r: String)
    ensures
        r@ == uuid_text(v),
{
    uuid::Uuid::from_u128(v).to_string()
}

/// A new identity from `Uuid::now_v7`, which reads the clock and draws random bits: all that
/// holds of every outcome is that its version is 7 and its variant the standard one.
#[verifier::external_body]
fn new_uuid() -> (r: u128)
    ensures
        is_version_seven(r),
{
    uuid::Uuid::now_v7().as_u128()
}

/// Whether the version bits say 7 and the two variant bits `10`.
pub open spec fn is_version_seven(v: u128) -> bool {
    &&& (v as nat / 0x1000_0000_0000_0000_0000) % 16 == 7
    &&& (v as nat / 0x4000_0000_0000_0000) % 4 == 2
}

/// A new identity for an event.
pub fn new_event_id() -> (r: u128)
    ensures
        is_version_seven(r),
{
    new_uuid()
}

/// The text of an event's identity.
pub fn event_id_text(event_id: u128) -> (r: String)
    ensures
        r@ == uuid_text(event_id),
{
    write_uuid(event_id)
}

/// Reads the identity of an event.
pub fn parse_event_id(text: &str) -> (r: Result<u128, InvalidId>)
    ensures
        reads_as(text@, r),
{
    parse_uuid(text)
}

proof fn lemma_digit_char(d: nat)
    requires
        d < 16,
    ensures
        hex_digit(text::digit_char(d)) == Some(d),
{
}

proof fn lemma_hex_text(n: nat, width: nat)
    ensures
        text::hex_text(n, width).len() == width,
    decreases width,
{
    if width > 0 {
        lemma_hex_text(n / 16, (width - 1) as nat);
    }
}

proof fn lemma_hex_round_trip(n: nat, width: nat)
    requires
        n < vstd::arithmetic::power::pow(16, width),
    ensures
        hex_number(text::hex_text(n, width)) == Some(n),
    decreases width,
{
    vstd::arithmetic::power::lemma_pow0(16);
    if width > 0 {
        let w = (width - 1) as nat;
        let t = text::hex_text(n, width);
        assert(vstd::arithmetic::power::pow(16, width) == 16 * vstd::arithmetic::power::pow(16, w))
            by {
            reveal(vstd::arithmetic::power::pow);
        }
        lemma_hex_round_trip(n / 16, w);
        lemma_digit_char(n % 16);
        assert(t.drop_last() == text::hex_text(n / 16, w));
        assert(16 * (n / 16) + n % 16 == n);
    }
}

/// Reading the text of an identity gives the identity back.
pub proof fn identity_text_reads_back(v: u128)
    ensures
        uuid_number(uuid_text(v)) == Some(v as nat),
        uuid_text(v).len() == 36,
{
    let h = text::hex_text(v as nat, 32);
    let t = uuid_text(v);
    lemma_hex_text(v as nat, 32);
    assert(unhyphenated(t) == h);
    assert(vstd::arithmetic::power::pow(16, 32) == 0x1_0000_0000_0000_0000_0000_0000_0000_0000) by {
        reveal(vstd::arithmetic::power::pow);
        reveal_with_fuel(vstd::arithmetic::power::pow, 33);
    }
    lemma_hex_round_trip(v as nat, 32);
}

/// A participant's identity.
#[derive(Clone, Copy, Debug, Eq, Hash, Ord, PartialEq, PartialOrd, Structural)]
pub struct ParticipantId(pub u128);

impl DeepView for ParticipantId {
    type V = ParticipantId;

    open spec fn deep_view(&self) -> ParticipantId {
        *self
    }
}

impl ParticipantId {
    /// A new identity.
    pub fn new() -> (r: Self)
        ensures
            is_version_seven(r.0),
    {
        ParticipantId(new_uuid())
    }

    /// Reads an identity from a UUID.
    pub fn from_str(value: &str) -> (r: Result<Self, InvalidId>)
        ensures
            match r {
                Ok(id) => uuid_number(value@) == Some(id.0 as nat),
                Err(error) => reads_as(value@, Err(error)),
            },
    {
        match parse_uuid(value) {
            Ok(v) => Ok(ParticipantId(v)),
            Err(error) => Err(error),
        }
    }

    /// The identity as a hyphenated UUID.
    pub fn to_text(&self) -> (r: String)
        ensures
            r@ == uuid_text(self.0),
    {
        write_uuid(self.0)
    }
}

impl sequences::Equal for ParticipantId {
    fn equals(&self, other: &Self) -> (r: bool) {
        self.0 == other.0
    }
}

impl ordered::Key for ParticipantId {
    open spec fn before(a: ParticipantId, b: ParticipantId) -> bool {
        a.0 < b.0
    }

    proof fn irreflexive(a: ParticipantId) {
    }

    proof fn transitive(a: ParticipantId, b: ParticipantId, c: ParticipantId) {
    }

    proof fn total(a: ParticipantId, b: ParticipantId) {
    }

    fn precedes(&self, other: &Self) -> (r: bool) {
        self.0 < other.0
    }
}

/// A claim of work's identity.
#[derive(Clone, Copy, Debug, Eq, Hash, Ord, PartialEq, PartialOrd, Structural)]
pub struct WorkId(pub u128);

impl DeepView for WorkId {
    type V = WorkId;

    open spec fn deep_view(&self) -> WorkId {
        *self
    }
}

impl WorkId {
    /// A new identity.
    pub fn new() -> (r: Self)
        ensures
            is_version_seven(r.0),
    {
        WorkId(new_uuid())
    }

    /// Reads an identity from a UUID.
    pub fn from_str(value: &str) -> (r: Result<Self, InvalidId>)
        ensures
            match r {
                Ok(id) => uuid_number(value@) == Some(id.0 as nat),
                Err(error) => reads_as(value@, Err(error)),
            },
    {
        match parse_uuid(value) {
            Ok(v) => Ok(WorkId(v)),
            Err(error) => Err(error),
        }
    }

    /// The identity as a hyphenated UUID.
    pub fn to_text(&self) -> (r: String)
        ensures
            r@ == uuid_text(self.0),
    {
        write_uuid(self.0)
    }
}

impl sequences::Equal for WorkId {
    fn equals(&self, other: &Self) -> (r: bool) {
        self.0 == other.0
    }
}

impl ordered::Key for WorkId {
    open spec fn before(a: WorkId, b: WorkId) -> bool {
        a.0 < b.0
    }

    proof fn irreflexive(a: WorkId) {
    }

    proof fn transitive(a: WorkId, b: WorkId, c: WorkId) {
    }

    proof fn total(a: WorkId, b: WorkId) {
    }

    fn precedes(&self, other: &Self) -> (r: bool) {
        self.0 < other.0
    }
}

/// A direction's identity.
#[derive(Clone, Copy, Debug, Eq, Hash, Ord, PartialEq, PartialOrd, Structural)]
pub struct DirectionId(pub u128);

impl DeepView for DirectionId {
    type V = DirectionId;

    open spec fn deep_view(&self) -> DirectionId {
        *self
    }
}

impl DirectionId {
    /// A new identity.
    pub fn new() -> (r: Self)
        ensures
            is_version_seven(r.0),
    {
        DirectionId(new_uuid())
    }

    /// Reads an identity from a UUID.
    pub fn from_str(value: &str) -> (r: Result<Self, InvalidId>)
        ensures
            match r {
                Ok(id) => uuid_number(value@) == Some(id.0 as nat),
                Err(error) => reads_as(value@, Err(error)),
            },
    {
        match parse_uuid(value) {
            Ok(v) => Ok(DirectionId(v)),
            Err(error) => Err(error),
        }
    }

    /// The identity as a hyphenated UUID.
    pub fn to_text(&self) -> (r: String)
        ensures
            r@ == uuid_text(self.0),
    {
        write_uuid(self.0)
    }
}

impl sequences::Equal for DirectionId {
    fn equals(&self, other: &Self) -> (r: bool) {
        self.0 == other.0
    }
}

impl ordered::Key for DirectionId {
    open spec fn before(a: DirectionId, b: DirectionId) -> bool {
        a.0 < b.0
    }

    proof fn irreflexive(a: DirectionId) {
    }

    proof fn transitive(a: DirectionId, b: DirectionId, c: DirectionId) {
    }

    proof fn total(a: DirectionId, b: DirectionId) {
    }

    fn precedes(&self, other: &Self) -> (r: bool) {
        self.0 < other.0
    }
}

/// A request for attention's identity.
#[derive(Clone, Copy, Debug, Eq, Hash, Ord, PartialEq, PartialOrd, Structural)]
pub struct RequestId(pub u128);

impl DeepView for RequestId {
    type V = RequestId;

    open spec fn deep_view(&self) -> RequestId {
        *self
    }
}

impl RequestId {
    /// A new identity.
    pub fn new() -> (r: Self)
        ensures
            is_version_seven(r.0),
    {
        RequestId(new_uuid())
    }

    /// Reads an identity from a UUID.
    pub fn from_str(value: &str) -> (r: Result<Self, InvalidId>)
        ensures
            match r {
                Ok(id) => uuid_number(value@) == Some(id.0 as nat),
                Err(error) => reads_as(value@, Err(error)),
            },
    {
        match parse_uuid(value) {
            Ok(v) => Ok(RequestId(v)),
            Err(error) => Err(error),
        }
    }

    /// The identity as a hyphenated UUID.
    pub fn to_text(&self) -> (r: String)
        ensures
            r@ == uuid_text(self.0),
    {
        write_uuid(self.0)
    }
}

impl sequences::Equal for RequestId {
    fn equals(&self, other: &Self) -> (r: bool) {
        self.0 == other.0
    }
}

impl ordered::Key for RequestId {
    open spec fn before(a: RequestId, b: RequestId) -> bool {
        a.0 < b.0
    }

    proof fn irreflexive(a: RequestId) {
    }

    proof fn transitive(a: RequestId, b: RequestId, c: RequestId) {
    }

    proof fn total(a: RequestId, b: RequestId) {
    }

    fn precedes(&self, other: &Self) -> (r: bool) {
        self.0 < other.0
    }
}

} // verus!
