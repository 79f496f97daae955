//! Identifiers of shards and of the participants registered in them.
//!
//! Each identifier is sixteen opaque bytes. In text it is one prefix character that
//! tells the kind, followed by the bytes as a hyphenated lower-case UUID.

use vstd::prelude::*;
use vstd::string::*;

verus! {

/// The sixteen lower-case hexadecimal digits, by value.
pub open spec fn hex_digit(n: int) -> char {
    seq!['0', '1', '2', '3', '4', '5', '6', '7', '8', '9', 'a', 'b', 'c', 'd', 'e', 'f'][n]
}

/// The bytes as lower-case hexadecimal digits, two for each byte, high digit first.
pub open spec fn hex_run(bytes: Seq<u8>) -> Seq<char>
    decreases bytes.len(),
{
    if bytes.len() == 0 {
        Seq::empty()
    } else {
        hex_run(bytes.drop_last()) + seq![
            hex_digit(bytes.last() as int / 16),
            hex_digit(bytes.last() as int % 16),
        ]
    }
}

/// Sixteen bytes in the hyphenated form of a UUID: groups of 4, 2, 2, 2 and 6 bytes.
pub open spec fn hyphenated(bytes: Seq<u8>) -> Seq<char> {
    hex_run(bytes.subrange(0, 4)) + seq!['-'] + hex_run(bytes.subrange(4, 6)) + seq!['-']
        + hex_run(bytes.subrange(6, 8)) + seq!['-'] + hex_run(bytes.subrange(8, 10)) + seq!['-']
        + hex_run(bytes.subrange(10, 16))
}

/// What `uuid::Uuid::parse_str` makes of a text: the sixteen bytes, or the message
/// of its error.
pub uninterp spec fn uuid_parsed(text: Seq<char>) -> Result<Seq<u8>, Seq<char>>;

/// The outcome of a parse that yields `bytes`.
pub open spec fn read_as(bytes: Seq<u8>) -> Result<Seq<u8>, Seq<char>> {
    Ok(bytes)
}

/// The outcome of a parse that is refused with `msg`.
pub open spec fn refused(msg: Seq<char>) -> Result<Seq<u8>, Seq<char>> {
    Err(msg)
}

/// The mathematical value of a parse result: bytes and messages as sequences.
pub open spec fn parsed_view(r: Result<[u8; 16], String>) -> Result<Seq<u8>, Seq<char>> {
    match r {
        Ok(bytes) => Ok(bytes@),
        Err(msg) => Err(msg@),
    }
}

/// The message with which a text is refused as an identifier of kind `id_type`.
pub open spec fn invalid_id(id_type: Seq<char>, encoded: Seq<char>, reason: Seq<char>) -> Seq<char> {
    "invalid "@ + id_type + " "@ + encoded + ": "@ + reason
}

/// What becomes of a text whose first character was the right prefix, given what
/// the UUID parser made of the rest: its error is passed on, and bytes are accepted
/// only from a text of 37 characters, that is from the hyphenated form.
pub open spec fn accepted(
    id_type: Seq<char>,
    encoded: Seq<char>,
    parsed: Result<Seq<u8>, Seq<char>>,
) -> Result<Seq<u8>, Seq<char>> {
    match parsed {
        Ok(bytes) => if encoded.len() == 37 {
            Ok(bytes)
        } else {
            Err(invalid_id(id_type, encoded, "incorrect length"@))
        },
        Err(reason) => Err(invalid_id(id_type, encoded, reason)),
    }
}

/// The identifier that a text stands for, or the message with which it is refused.
pub open spec fn parsed_id(id_prefix: char, id_type: Seq<char>, encoded: Seq<char>) -> Result<
    Seq<u8>,
    Seq<char>,
> {
    if encoded.len() == 0 || encoded[0] != id_prefix {
        Err(invalid_id(id_type, encoded, "incorrect prefix"@))
    } else {
        accepted(id_type, encoded, uuid_parsed(encoded.skip(1)))
    }
}

/// The text of an identifier: the prefix, then the hyphenated bytes.
pub open spec fn id_text(id_prefix: char, bytes: Seq<u8>) -> Seq<char> {
    seq![id_prefix] + hyphenated(bytes)
}

/// Calls `uuid::Uuid::parse_str` and hands out the bytes of the UUID, or the text
/// that the error displays as.
///
/// Trusted: the result is the one named [`uuid_parsed`], a function of the text alone.
#[verifier::external_body]
fn parse_uuid(text: &str) -> (r: Result<[u8; 16], String>)
    ensures
        parsed_view(r) == uuid_parsed(text@),
{
    match uuid::Uuid::parse_str(text) {
        Ok(id) => Ok(id.into_bytes()),
        Err(e) => Err(e.to_string()),
    }
}

/// Calls `uuid::Uuid::from_bytes` and formats the UUID with its `Display`.
///
/// Trusted: the text is the lower-case hyphenated form of the bytes, and
/// `uuid::Uuid::parse_str` reads that text back as the same bytes.
#[verifier::external_body]
fn format_uuid(bytes: &[u8; 16]) -> (text: String)
    ensures
        text@ == hyphenated(bytes@),
        uuid_parsed(text@) == read_as(bytes@),
{
    uuid::Uuid::from_bytes(*bytes).to_string()
}

/// Calls `uuid::Uuid::new_v4` and hands out its bytes.
///
/// Trusted: whatever the random source gave, the bytes carry version 4 and the
/// RFC 4122 variant. The call panics if the system has no random source.
#[verifier::external_body]
fn random_uuid() -> (bytes: [u8; 16])
    ensures
        bytes[6] / 16 == 4,
        bytes[8] / 64 == 2,
{
    uuid::Uuid::new_v4().into_bytes()
}

/// `String::push` appends the character to the end of the string.
pub assume_specification[ String::push ](s: &mut String, c: char)
    ensures
        final(s)@ == old(s)@.push(c),
;

/// Two digits for every byte.
pub proof fn lemma_hex_run_len(bytes: Seq<u8>)
    ensures
        hex_run(bytes).len() == 2 * bytes.len(),
    decreases bytes.len(),
{
    if bytes.len() > 0 {
        lemma_hex_run_len(bytes.drop_last());
    }
}

/// The hyphenated form of sixteen bytes has 36 characters.
pub proof fn lemma_hyphenated_len(bytes: Seq<u8>)
    requires
        bytes.len() == 16,
    ensures
        hyphenated(bytes).len() == 36,
{
    lemma_hex_run_len(bytes.subrange(0, 4));
    lemma_hex_run_len(bytes.subrange(4, 6));
    lemma_hex_run_len(bytes.subrange(6, 8));
    lemma_hex_run_len(bytes.subrange(8, 10));
    lemma_hex_run_len(bytes.subrange(10, 16));
}

/// Builds the message with which a text is refused.
fn invalid_id_message(id_type: &str, encoded: &str, reason: &str) -> (msg: String)
    ensures
        msg@ == invalid_id(id_type@, encoded@, reason@),
{
    let mut msg = String::from_str("invalid ");
    msg.append(id_type);
    msg.append(" ");
    msg.append(encoded);
    msg.append(": ");
    msg.append(reason);
    msg
}

/// Decides on a text whose prefix was right, from what the UUID parser made of
/// the rest of it.
pub fn accept_parsed(id_type: &str, encoded: &str, parsed: Result<[u8; 16], String>) -> (r: Result<
    [u8; 16],
    String,
>)
    ensures
        parsed_view(r) == accepted(id_type@, encoded@, parsed_view(parsed)),
{
    match parsed {
        Ok(bytes) => {
            if encoded.unicode_len() == 37 {
                Ok(bytes)
            } else {
                Err(invalid_id_message(id_type, encoded, "incorrect length"))
            }
        },
        Err(reason) => Err(invalid_id_message(id_type, encoded, reason.as_str())),
    }
}

/// Reads an identifier of kind `id_type` from its text.
///
/// The text must start with `id_prefix` and go on with a UUID in hyphenated form.
pub fn parse_id(id_prefix: char, id_type: &str, encoded: &str) -> (r: Result<[u8; 16], String>)
    ensures
        parsed_view(r) == parsed_id(id_prefix, id_type@, encoded@),
{
    let n = encoded.unicode_len();
    if n == 0 || encoded.get_char(0) != id_prefix {
        return Err(invalid_id_message(id_type, encoded, "incorrect prefix"));
    }
    let rest = encoded.substring_char(1, n);
    let parsed = parse_uuid(rest);
    accept_parsed(id_type, encoded, parsed)
}

/// Writes an identifier as text: the prefix, then the bytes as a hyphenated UUID.
///
/// The text reads back as the same bytes, under any `id_type`.
pub fn format_id(id_prefix: char, bytes: &[u8; 16]) -> (text: String)
    ensures
        text@ == id_text(id_prefix, bytes@),
        text@.len() == 37,
        forall|id_type: Seq<char>|
            #[trigger] parsed_id(id_prefix, id_type, text@) == read_as(bytes@),
{
    let uuid = format_uuid(bytes);
    let mut text = String::new();
    text.push(id_prefix);
    text.append(uuid.as_str());
    proof {
        lemma_hyphenated_len(bytes@);
        assert(text@ =~= id_text(id_prefix, bytes@));
        assert(text@.skip(1) =~= uuid@);
    }
    text
}

/// Whether two identifiers hold the same bytes.
pub fn same_bytes(a: &[u8; 16], b: &[u8; 16]) -> (same: bool)
    ensures
        same == (a@ == b@),
{
    let mut i: usize = 0;
    while i < 16
        invariant
            i <= 16,
            forall|j: int| 0 <= j < i ==> a@[j] == b@[j],
        decreases 16 - i,
    {
        if a[i] != b[i] {
            return false;
        }
        i += 1;
    }
    assert(a@ =~= b@);
    true
}

/// An opaque identifier of a shard, a durable time-varying collection.
#[derive(Clone, Copy, Debug, PartialEq, Eq, Hash, PartialOrd, Ord)]
pub struct ShardId(pub [u8; 16]);

impl View for ShardId {
    type V = Seq<u8>;

    open spec fn view(&self) -> Seq<u8> {
        self.0@
    }
}

impl ShardId {
    /// The character that starts the text of such an identifier.
    pub open spec fn prefix() -> char {
        's'
    }

    /// The identifier that a text stands for, or the message with which it is refused.
    pub open spec fn parsed(text: Seq<char>) -> Result<Seq<u8>, Seq<char>> {
        parsed_id('s', "ShardId"@, text)
    }

    /// A random identifier that is reasonably likely to have never been made before.
    /// Whatever the bytes are, they carry the marks of a random UUID.
    pub fn new() -> (id: ShardId)
        ensures
            id@.len() == 16,
            id@[6] / 16 == 4,
            id@[8] / 64 == 2,
    {
        ShardId(random_uuid())
    }

    /// The text of this identifier, which may be stored or sent and read back with
    /// [`ShardId::from_str`]: reading it back gives this identifier again.
    pub fn to_string(&self) -> (text: String)
        ensures
            text@ == id_text('s', self@),
            ShardId::parsed(text@) == read_as(self@),
    {
        format_id('s', &self.0)
    }

    /// The form in which this identifier appears in diagnostics.
    pub fn debug_string(&self) -> (text: String)
        ensures
            text@ == "ShardId("@ + hyphenated(self@) + ")"@,
    {
        let mut text = String::from_str("ShardId(");
        let uuid = format_uuid(&self.0);
        text.append(uuid.as_str());
        text.append(")");
        text
    }

    /// Reads an identifier from its text.
    pub fn from_str(s: &str) -> (r: Result<ShardId, String>)
        ensures
            match r {
                Ok(id) => ShardId::parsed(s@) == read_as(id@),
                Err(msg) => ShardId::parsed(s@) == refused(msg@),
            },
    {
        match parse_id('s', "ShardId", s) {
            Ok(bytes) => Ok(ShardId(bytes)),
            Err(msg) => Err(msg),
        }
    }

    /// Whether both identifiers hold the same bytes.
    pub fn same(&self, other: &ShardId) -> (same: bool)
        ensures
            same == (self@ == other@),
    {
        same_bytes(&self.0, &other.0)
    }
}

/// An opaque identifier of a reader that holds its capability under a lease.
#[derive(Clone, Copy, Debug, PartialEq, Eq, Hash, PartialOrd, Ord)]
pub struct LeasedReaderId(pub [u8; 16]);

impl View for LeasedReaderId {
    type V = Seq<u8>;

    open spec fn view(&self) -> Seq<u8> {
        self.0@
    }
}

impl LeasedReaderId {
    /// The character that starts the text of such an identifier.
    pub open spec fn prefix() -> char {
        'r'
    }

    /// The identifier that a text stands for, or the message with which it is refused.
    pub open spec fn parsed(text: Seq<char>) -> Result<Seq<u8>, Seq<char>> {
        parsed_id('r', "LeasedReaderId"@, text)
    }

    /// A random identifier that is reasonably likely to have never been made before.
    /// Whatever the bytes are, they carry the marks of a random UUID.
    pub fn new() -> (id: LeasedReaderId)
        ensures
            id@.len() == 16,
            id@[6] / 16 == 4,
            id@[8] / 64 == 2,
    {
        LeasedReaderId(random_uuid())
    }

    /// The text of this identifier, which may be stored or sent and read back with
    /// [`LeasedReaderId::from_str`]: reading it back gives this identifier again.
    pub fn to_string(&self) -> (text: String)
        ensures
            text@ == id_text('r', self@),
            LeasedReaderId::parsed(text@) == read_as(self@),
    {
        format_id('r', &self.0)
    }

    /// The form in which this identifier appears in diagnostics.
    pub fn debug_string(&self) -> (text: String)
        ensures
            text@ == "LeasedReaderId("@ + hyphenated(self@) + ")"@,
    {
        let mut text = String::from_str("LeasedReaderId(");
        let uuid = format_uuid(&self.0);
        text.append(uuid.as_str());
        text.append(")");
        text
    }

    /// Reads an identifier from its text.
    pub fn from_str(s: &str) -> (r: Result<LeasedReaderId, String>)
        ensures
            match r {
                Ok(id) => LeasedReaderId::parsed(s@) == read_as(id@),
                Err(msg) => LeasedReaderId::parsed(s@) == refused(msg@),
            },
    {
        match parse_id('r', "LeasedReaderId", s) {
            Ok(bytes) => Ok(LeasedReaderId(bytes)),
            Err(msg) => Err(msg),
        }
    }

    /// Whether both identifiers hold the same bytes.
    pub fn same(&self, other: &LeasedReaderId) -> (same: bool)
        ensures
            same == (self@ == other@),
    {
        same_bytes(&self.0, &other.0)
    }
}

/// An opaque identifier of a writer of a shard.
#[derive(Clone, Copy, Debug, PartialEq, Eq, Hash, PartialOrd, Ord)]
pub struct WriterId(pub [u8; 16]);

impl View for WriterId {
    type V = Seq<u8>;

    open spec fn view(&self) -> Seq<u8> {
        self.0@
    }
}

impl WriterId {
    /// The character that starts the text of such an identifier.
    pub open spec fn prefix() -> char {
        'w'
    }

    /// The identifier that a text stands for, or the message with which it is refused.
    pub open spec fn parsed(text: Seq<char>) -> Result<Seq<u8>, Seq<char>> {
        parsed_id('w', "WriterId"@, text)
    }

    /// A random identifier that is reasonably likely to have never been made before.
    /// Whatever the bytes are, they carry the marks of a random UUID.
    pub fn new() -> (id: WriterId)
        ensures
            id@.len() == 16,
            id@[6] / 16 == 4,
            id@[8] / 64 == 2,
    {
        WriterId(random_uuid())
    }

    /// The text of this identifier, which may be stored or sent and read back with
    /// [`WriterId::from_str`]: reading it back gives this identifier again.
    pub fn to_string(&self) -> (text: String)
        ensures
            text@ == id_text('w', self@),
            WriterId::parsed(text@) == read_as(self@),
    {
        format_id('w', &self.0)
    }

    /// The form in which this identifier appears in diagnostics.
    pub fn debug_string(&self) -> (text: String)
        ensures
            text@ == "WriterId("@ + hyphenated(self@) + ")"@,
    {
        let mut text = String::from_str("WriterId(");
        let uuid = format_uuid(&self.0);
        text.append(uuid.as_str());
        text.append(")");
        text
    }

    /// Reads an identifier from its text.
    pub fn from_str(s: &str) -> (r: Result<WriterId, String>)
        ensures
            match r {
                Ok(id) => WriterId::parsed(s@) == read_as(id@),
                Err(msg) => WriterId::parsed(s@) == refused(msg@),
            },
    {
        match parse_id('w', "WriterId", s) {
            Ok(bytes) => Ok(WriterId(bytes)),
            Err(msg) => Err(msg),
        }
    }

    /// Whether both identifiers hold the same bytes.
    pub fn same(&self, other: &WriterId) -> (same: bool)
        ensures
            same == (self@ == other@),
    {
        same_bytes(&self.0, &other.0)
    }
}

/// An opaque identifier of a reader whose capability never expires by itself.
#[derive(Clone, Copy, Debug, PartialEq, Eq, Hash, PartialOrd, Ord)]
pub struct CriticalReaderId(pub [u8; 16]);

impl View for CriticalReaderId {
    type V = Seq<u8>;

    open spec fn view(&self) -> Seq<u8> {
        self.0@
    }
}

impl CriticalReaderId {
    /// The character that starts the text of such an identifier.
    pub open spec fn prefix() -> char {
        'c'
    }

    /// The identifier that a text stands for, or the message with which it is refused.
    pub open spec fn parsed(text: Seq<char>) -> Result<Seq<u8>, Seq<char>> {
        parsed_id('c', "CriticalReaderId"@, text)
    }

    /// A random identifier that is reasonably likely to have never been made before.
    /// Whatever the bytes are, they carry the marks of a random UUID.
    pub fn new() -> (id: CriticalReaderId)
        ensures
            id@.len() == 16,
            id@[6] / 16 == 4,
            id@[8] / 64 == 2,
    {
        CriticalReaderId(random_uuid())
    }

    /// The text of this identifier, which may be stored or sent and read back with
    /// [`CriticalReaderId::from_str`]: reading it back gives this identifier again.
    pub fn to_string(&self) -> (text: String)
        ensures
            text@ == id_text('c', self@),
            CriticalReaderId::parsed(text@) == read_as(self@),
    {
        format_id('c', &self.0)
    }

    /// The form in which this identifier appears in diagnostics.
    pub fn debug_string(&self) -> (text: String)
        ensures
            text@ == "CriticalReaderId("@ + hyphenated(self@) + ")"@,
    {
        let mut text = String::from_str("CriticalReaderId(");
        let uuid = format_uuid(&self.0);
        text.append(uuid.as_str());
        text.append(")");
        text
    }

    /// Reads an identifier from its text.
    pub fn from_str(s: &str) -> (r: Result<CriticalReaderId, String>)
        ensures
            match r {
                Ok(id) => CriticalReaderId::parsed(s@) == read_as(id@),
                Err(msg) => CriticalReaderId::parsed(s@) == refused(msg@),
            },
    {
        match parse_id('c', "CriticalReaderId", s) {
            Ok(bytes) => Ok(CriticalReaderId(bytes)),
            Err(msg) => Err(msg),
        }
    }

    /// Whether both identifiers hold the same bytes.
    pub fn same(&self, other: &CriticalReaderId) -> (same: bool)
        ensures
            same == (self@ == other@),
    {
        same_bytes(&self.0, &other.0)
    }
}

} // verus!
