//! The object store: typed binary payloads are framed with a textual
//! header, content-addressed by the SHA-1 digest of the framed bytes, and
//! compressed for storage.  Reading decompresses, checks the header
//! grammar, and recovers the payload and its type.

use vstd::prelude::*;

use sha1::Digest;
use std::io::Write;

verus! {

/// Failure of an object-store operation.
#[derive(Debug)]
pub enum DbError {
    /// The stored bytes could not be read back or decompressed.
    ReadError { msg: String },
    /// The compressed stream could not be produced.
    WriteError { msg: String },
    /// The input content could not be obtained.
    InputReadError { msg: String },
    /// The stored object could not be removed.
    DeleteError { msg: String },
    /// The decompressed bytes do not follow the header grammar.
    MalformedObject { msg: String },
    /// The object carries a type token outside the closed set.
    InvalidType,
    /// No repository root is available.
    NoRootError,
}

/// The closed set of object kinds.  Unknown tokens parse to `Invalid`,
/// which is never legitimately stored.
#[derive(Clone, Copy, Debug, PartialEq, Eq, Structural)]
pub enum ObjectType {
    Blob,
    Tree,
    Commit,
    Invalid,
}

/// A payload together with its parsed type.
#[derive(Debug)]
pub struct Object {
    pub data: Vec<u8>,
    pub object_type: ObjectType,
}

impl ObjectType {
    pub open spec fn spec_is_valid(self) -> bool {
        self != ObjectType::Invalid
    }

    /// The canonical lowercase token, as the bytes written in the header.
    pub open spec fn token_bytes(self) -> Seq<u8> {
        match self {
            ObjectType::Blob => seq![98u8, 108u8, 111u8, 98u8],
            ObjectType::Tree => seq![116u8, 114u8, 101u8, 101u8],
            ObjectType::Commit => seq![99u8, 111u8, 109u8, 109u8, 105u8, 116u8],
            ObjectType::Invalid => seq![105u8, 110u8, 118u8, 97u8, 108u8, 105u8, 100u8],
        }
    }

    /// The canonical lowercase token, as text.
    pub open spec fn token_chars(self) -> Seq<char> {
        match self {
            ObjectType::Blob => seq!['b', 'l', 'o', 'b'],
            ObjectType::Tree => seq!['t', 'r', 'e', 'e'],
            ObjectType::Commit => seq!['c', 'o', 'm', 'm', 'i', 't'],
            ObjectType::Invalid => seq!['i', 'n', 'v', 'a', 'l', 'i', 'd'],
        }
    }

    #[verifier::when_used_as_spec(spec_is_valid)]
    pub fn is_valid(self) -> (r: bool)
        ensures
            r == self.spec_is_valid(),
    {
        !matches!(self, ObjectType::Invalid)
    }

    /// All variants, in a fixed order.
    pub fn iterator() -> (r: Vec<ObjectType>)
        ensures
            r@ == seq![
                ObjectType::Blob,
                ObjectType::Commit,
                ObjectType::Tree,
                ObjectType::Invalid,
            ],
    {
        let mut r: Vec<ObjectType> = Vec::new();
        r.push(ObjectType::Blob);
        r.push(ObjectType::Commit);
        r.push(ObjectType::Tree);
        r.push(ObjectType::Invalid);
        proof {
            assert(r@ =~= seq![
                ObjectType::Blob,
                ObjectType::Commit,
                ObjectType::Tree,
                ObjectType::Invalid,
            ]);
        }
        r
    }

    /// Renders the canonical lowercase token.
    pub fn token(self) -> (r: String)
        ensures
            r@ == self.token_chars(),
    {
        match self {
            ObjectType::Blob => {
                let r = String::from_str("blob");
                proof {
                    reveal_strlit("blob");
                    assert(r@ =~= self.token_chars());
                }
                r
            },
            ObjectType::Tree => {
                let r = String::from_str("tree");
                proof {
                    reveal_strlit("tree");
                    assert(r@ =~= self.token_chars());
                }
                r
            },
            ObjectType::Commit => {
                let r = String::from_str("commit");
                proof {
                    reveal_strlit("commit");
                    assert(r@ =~= self.token_chars());
                }
                r
            },
            ObjectType::Invalid => {
                let r = String::from_str("invalid");
                proof {
                    reveal_strlit("invalid");
                    assert(r@ =~= self.token_chars());
                }
                r
            },
        }
    }

    /// The total parse from a text token: any unrecognized token maps to
    /// `Invalid` rather than failing.
    pub open spec fn spec_from_token(s: Seq<char>) -> ObjectType {
        if s == ObjectType::Blob.token_chars() {
            ObjectType::Blob
        } else if s == ObjectType::Tree.token_chars() {
            ObjectType::Tree
        } else if s == ObjectType::Commit.token_chars() {
            ObjectType::Commit
        } else {
            ObjectType::Invalid
        }
    }

    pub fn from_token(s: &str) -> (r: ObjectType)
        ensures
            r == ObjectType::spec_from_token(s@),
    {
        let owned = s.to_owned();
        proof {
            reveal_strlit("blob");
            reveal_strlit("tree");
            reveal_strlit("commit");
            assert("blob"@ =~= ObjectType::Blob.token_chars());
            assert("tree"@ =~= ObjectType::Tree.token_chars());
            assert("commit"@ =~= ObjectType::Commit.token_chars());
        }
        if owned.eq(&String::from_str("blob")) {
            ObjectType::Blob
        } else if owned.eq(&String::from_str("tree")) {
            ObjectType::Tree
        } else if owned.eq(&String::from_str("commit")) {
            ObjectType::Commit
        } else {
            ObjectType::Invalid
        }
    }
}

impl Object {
    /// Whether the parsed type lies in the closed set.
    pub fn is_valid(&self) -> (r: bool)
        ensures
            r == self.object_type.spec_is_valid(),
    {
        self.object_type.is_valid()
    }
}

// ------------------------------------------------------------------
// Decimal rendering of the payload length
// ------------------------------------------------------------------

pub open spec fn is_digit(b: u8) -> bool {
    48 <= b <= 57
}

pub open spec fn is_lower(b: u8) -> bool {
    97 <= b <= 122
}

/// The decimal digits of `n`, most significant first, no leading zeros
/// (`0` itself renders as the single digit `0`).
pub open spec fn dec_digits(n: nat) -> Seq<u8>
    decreases n,
{
    if n < 10 {
        seq![(48 + n) as u8]
    } else {
        dec_digits(n / 10).push((48 + n % 10) as u8)
    }
}

/// The numeric value of a digit string.
pub open spec fn dec_value(s: Seq<u8>) -> int
    decreases s.len(),
{
    if s.len() == 0 {
        0
    } else {
        dec_value(s.drop_last()) * 10 + s.last() - 48
    }
}

/// The header grammar's length field: one or more digits, no leading zero.
pub open spec fn is_dec_literal(s: Seq<u8>) -> bool {
    &&& s.len() >= 1
    &&& forall|i: int| 0 <= i < s.len() ==> is_digit(#[trigger] s[i])
    &&& s[0] != 48
}

/// The header grammar's type field: one or more lowercase letters.
pub open spec fn is_token(s: Seq<u8>) -> bool {
    &&& s.len() >= 1
    &&& forall|i: int| 0 <= i < s.len() ==> is_lower(#[trigger] s[i])
}

proof fn lemma_dec_digits(n: nat)
    ensures
        dec_digits(n).len() >= 1,
        forall|i: int| 0 <= i < dec_digits(n).len() ==> is_digit(#[trigger] dec_digits(n)[i]),
        dec_digits(n)[0] == 48 <==> n == 0,
        dec_value(dec_digits(n)) == n,
    decreases n,
{
    if n < 10 {
        let s = dec_digits(n);
        assert(s =~= seq![(48 + n) as u8]);
        assert(s.drop_last() =~= Seq::<u8>::empty());
        assert(s.last() == (48 + n) as u8);
        assert((48 + n) as u8 == 48 + n);
        assert(dec_value(s) == dec_value(s.drop_last()) * 10 + s.last() - 48);
        assert(dec_value(s.drop_last()) == 0);
        assert(dec_value(s) == n);
    } else {
        lemma_dec_digits(n / 10);
        vstd::arithmetic::div_mod::lemma_fundamental_div_mod(n as int, 10);
        assert(0 <= n % 10 < 10) by (nonlinear_arith);
        assert(n / 10 >= 1) by (nonlinear_arith)
            requires
                n >= 10,
        ;
        let s = dec_digits(n);
        assert(s == dec_digits(n / 10).push((48 + n % 10) as u8));
        assert(s.drop_last() =~= dec_digits(n / 10));
        assert(s.last() == (48 + n % 10) as u8);
        assert((48 + n % 10) as u8 == 48 + n % 10);
        assert(dec_value(s) == dec_value(dec_digits(n / 10)) * 10 + (48 + n % 10) - 48);
        assert(dec_value(s) == (n / 10) * 10 + n % 10);
        assert(s[0] == dec_digits(n / 10)[0]);
    }
}

proof fn lemma_dec_take_succ(s: Seq<u8>, i: int)
    requires
        0 <= i < s.len(),
    ensures
        dec_value(s.take(i + 1)) == dec_value(s.take(i)) * 10 + s[i] - 48,
{
    assert(s.take(i + 1).drop_last() =~= s.take(i));
    assert(s.take(i + 1).last() == s[i]);
}

proof fn lemma_dec_value_nonneg(s: Seq<u8>)
    requires
        forall|i: int| 0 <= i < s.len() ==> is_digit(#[trigger] s[i]),
    ensures
        dec_value(s) >= 0,
    decreases s.len(),
{
    if s.len() > 0 {
        lemma_dec_value_nonneg(s.drop_last());
    }
}

/// Each prefix of a digit string has a value no larger than the whole.
proof fn lemma_dec_prefix_le(s: Seq<u8>, i: int)
    requires
        0 <= i <= s.len(),
        forall|j: int| 0 <= j < s.len() ==> is_digit(#[trigger] s[j]),
    ensures
        dec_value(s.take(i)) <= dec_value(s),
    decreases s.len() - i,
{
    if i == s.len() {
        assert(s.take(i) =~= s);
    } else {
        lemma_dec_take_succ(s, i);
        assert(forall|j: int| 0 <= j < s.take(i).len() ==> is_digit(#[trigger] s.take(i)[j]));
        lemma_dec_value_nonneg(s.take(i));
        lemma_dec_prefix_le(s, i + 1);
    }
}

/// Appends the decimal rendering of `n`.
fn push_dec(out: &mut Vec<u8>, n: usize)
    ensures
        final(out)@ == old(out)@ + dec_digits(n as nat),
    decreases n,
{
    if n < 10 {
        out.push(48 + n as u8);
        proof {
            assert(out@ =~= old(out)@ + dec_digits(n as nat));
        }
    } else {
        push_dec(out, n / 10);
        out.push(48 + (n % 10) as u8);
        proof {
            assert(out@ =~= old(out)@ + dec_digits(n as nat));
        }
    }
}

/// Appends a byte string.
fn push_bytes(out: &mut Vec<u8>, src: &[u8])
    ensures
        final(out)@ == old(out)@ + src@,
{
    let mut i: usize = 0;
    while i < src.len()
        invariant
            i <= src@.len(),
            out@ == old(out)@ + src@.take(i as int),
        decreases src@.len() - i,
    {
        out.push(src[i]);
        i = i + 1;
        proof {
            assert(out@ =~= old(out)@ + src@.take(i as int));
        }
    }
    proof {
        assert(out@ =~= old(out)@ + src@);
    }
}

/// Appends the canonical token of `t`.
fn push_token(out: &mut Vec<u8>, t: ObjectType)
    ensures
        final(out)@ == old(out)@ + t.token_bytes(),
{
    match t {
        ObjectType::Blob => {
            out.push(98);
            out.push(108);
            out.push(111);
            out.push(98);
        },
        ObjectType::Tree => {
            out.push(116);
            out.push(114);
            out.push(101);
            out.push(101);
        },
        ObjectType::Commit => {
            out.push(99);
            out.push(111);
            out.push(109);
            out.push(109);
            out.push(105);
            out.push(116);
        },
        ObjectType::Invalid => {
            out.push(105);
            out.push(110);
            out.push(118);
            out.push(97);
            out.push(108);
            out.push(105);
            out.push(100);
        },
    }
    proof {
        assert(out@ =~= old(out)@ + t.token_bytes());
    }
}

// ------------------------------------------------------------------
// The framed byte sequence: "<token> <length>\0<payload>"
// ------------------------------------------------------------------

/// The exact byte sequence that is hashed and compressed.
pub open spec fn store_spec(content: Seq<u8>, t: ObjectType) -> Seq<u8> {
    t.token_bytes() + seq![32u8] + dec_digits(content.len()) + seq![0u8] + content
}

/// Builds the framed byte sequence for a payload and type.
pub fn get_store(content: &[u8], object_type: ObjectType) -> (r: Vec<u8>)
    ensures
        r@ == store_spec(content@, object_type),
{
    let mut out: Vec<u8> = Vec::new();
    push_token(&mut out, object_type);
    out.push(32);
    push_dec(&mut out, content.len());
    out.push(0);
    push_bytes(&mut out, content);
    proof {
        assert(out@ =~= store_spec(content@, object_type));
    }
    out
}

// ------------------------------------------------------------------
// Identifiers: SHA-1 digest rendered as 40 lowercase hex characters
// ------------------------------------------------------------------

/// The SHA-1 digest of a byte sequence; a function of the bytes alone.
pub uninterp spec fn sha1_of(s: Seq<u8>) -> Seq<u8>;

/// The lowercase hex character for a nibble.
pub open spec fn hex_digit(n: u8) -> char {
    if n == 0 {
        '0'
    } else if n == 1 {
        '1'
    } else if n == 2 {
        '2'
    } else if n == 3 {
        '3'
    } else if n == 4 {
        '4'
    } else if n == 5 {
        '5'
    } else if n == 6 {
        '6'
    } else if n == 7 {
        '7'
    } else if n == 8 {
        '8'
    } else if n == 9 {
        '9'
    } else if n == 10 {
        'a'
    } else if n == 11 {
        'b'
    } else if n == 12 {
        'c'
    } else if n == 13 {
        'd'
    } else if n == 14 {
        'e'
    } else {
        'f'
    }
}

/// Lowercase hex rendering: two characters per byte, high nibble first.
pub open spec fn hex_of(s: Seq<u8>) -> Seq<char>
    decreases s.len(),
{
    if s.len() == 0 {
        Seq::<char>::empty()
    } else {
        hex_of(s.drop_last()).push(hex_digit(s.last() / 16)).push(hex_digit(s.last() % 16))
    }
}

pub open spec fn is_hex_char(c: char) -> bool {
    (48 <= c as int && c as int <= 57) || (97 <= c as int && c as int <= 102)
}

/// The shape of a well-formed identifier: exactly 40 characters, each a
/// digit or a lowercase letter `a` through `f`.
pub open spec fn is_valid_hash(s: Seq<char>) -> bool {
    s.len() == 40 && forall|i: int| 0 <= i < s.len() ==> is_hex_char(#[trigger] s[i])
}

proof fn lemma_hex_of_valid(s: Seq<u8>)
    ensures
        hex_of(s).len() == 2 * s.len(),
        forall|i: int| 0 <= i < hex_of(s).len() ==> is_hex_char(#[trigger] hex_of(s)[i]),
    decreases s.len(),
{
    if s.len() > 0 {
        lemma_hex_of_valid(s.drop_last());
        assert(s.last() / 16 < 16);
        assert(s.last() % 16 < 16);
    }
}

/// The identifier of an object with the given payload and type: the SHA-1
/// digest of the framed bytes, in lowercase hex.
pub open spec fn object_id(content: Seq<u8>, t: ObjectType) -> Seq<char> {
    hex_of(sha1_of(store_spec(content, t)))
}

/// Relies on the `sha1` crate's `Sha1` hasher (through the `digest`
/// traits): the 20-byte digest is a function of the input bytes alone.
#[verifier::external_body]
fn sha1_digest(data: &[u8]) -> (r: Vec<u8>)
    ensures
        r@ == sha1_of(data@),
        r@.len() == 20,
{
    sha1::Sha1::digest(data).to_vec()
}

/// Relies on `hex::encode`: each byte becomes two lowercase hex digits,
/// high nibble first.
#[verifier::external_body]
fn hex_encode(data: &[u8]) -> (r: String)
    ensures
        r@ == hex_of(data@),
{
    hex::encode(data)
}

/// The zlib stream that compressing a byte sequence at the default level
/// produces; a function of the input bytes alone.
pub uninterp spec fn deflate_of(s: Seq<u8>) -> Seq<u8>;

/// What decompressing a byte sequence yields: `None` when the
/// decompressor reports an error on the bytes (a truncated stream may
/// still yield the output decoded so far); a function of the input
/// bytes alone.
pub uninterp spec fn inflate_of(s: Seq<u8>) -> Option<Seq<u8>>;

/// Relies on flate2's `write::ZlibEncoder` at the default compression
/// level: the output is a function of the input bytes, and decompressing
/// it yields the input again.  The call always succeeds: the sink is a
/// `Vec`, whose `Write` impl never errors, and the compressor reports no
/// error when compressing.
#[verifier::external_body]
fn zlib_compress(data: &[u8]) -> (r: Result<Vec<u8>, String>)
    ensures
        r is Ok,
        r matches Ok(v) ==> v@ == deflate_of(data@) && inflate_of(v@) == Some(data@),
{
    let mut encoder = flate2::write::ZlibEncoder::new(Vec::new(), flate2::Compression::default());
    match encoder.write_all(data).and_then(|_| encoder.finish()) {
        Ok(v) => Ok(v),
        Err(e) => Err(format!("{:?}", e)),
    }
}

/// Relies on flate2's `write::ZlibDecoder`: whether the bytes decompress,
/// and to what, is a function of the input bytes alone.
#[verifier::external_body]
fn zlib_decompress(data: &[u8]) -> (r: Result<Vec<u8>, String>)
    ensures
        r is Ok <==> inflate_of(data@) is Some,
        r matches Ok(v) ==> Some(v@) == inflate_of(data@),
{
    let mut decoder = flate2::write::ZlibDecoder::new(Vec::new());
    match decoder.write_all(data).and_then(|_| decoder.finish()) {
        Ok(v) => Ok(v),
        Err(e) => Err(format!("{:?}", e)),
    }
}

/// A validated object identifier: an immutable 40-character lowercase
/// hexadecimal string, used both as a handle and as a filename component.
#[derive(Debug)]
pub struct ObjectRepr {
    hash: String,
}

impl View for ObjectRepr {
    type V = Seq<char>;

    closed spec fn view(&self) -> Seq<char> {
        self.hash@
    }
}

impl ObjectRepr {
    /// Every reachable identifier satisfies the 40-hex-character shape.
    #[verifier::type_invariant]
    pub closed spec fn wf(self) -> bool {
        is_valid_hash(self.hash@)
    }

    /// The validating parse: accepts exactly 40 characters of `[0-9a-f]`.
    pub fn try_from(hash: &str) -> (r: Result<ObjectRepr, ()>)
        ensures
            r is Ok <==> is_valid_hash(hash@),
            r matches Ok(o) ==> o@ == hash@,
    {
        let n = hash.unicode_len();
        if n != 40 {
            return Err(());
        }
        let mut i: usize = 0;
        while i < 40
            invariant
                i <= 40,
                hash@.len() == 40,
                forall|j: int| 0 <= j < i ==> is_hex_char(#[trigger] hash@[j]),
            decreases 40 - i,
        {
            let c = hash.get_char(i);
            let u = c as u32;
            if !((48 <= u && u <= 57) || (97 <= u && u <= 102)) {
                return Err(());
            }
            i = i + 1;
        }
        Ok(ObjectRepr { hash: hash.to_owned() })
    }

    /// The object's storage path under the given repository root.
    pub fn path(&self, root: &str) -> (r: String)
        requires
            crate::paths::is_canonical_path(root@),
        ensures
            r@ == crate::paths::db_path_spec(root@, self@),
    {
        crate::paths::db_path(root, self)
    }

    /// The identifier's text: always exactly 40 characters of `[0-9a-f]`.
    pub fn hash(&self) -> (r: &str)
        ensures
            r@ == self@,
            is_valid_hash(r@),
    {
        proof {
            use_type_invariant(self);
        }
        self.hash.as_str()
    }
}

impl Clone for ObjectRepr {
    fn clone(&self) -> (r: Self)
        ensures
            r@ == self@,
    {
        proof {
            use_type_invariant(self);
        }
        ObjectRepr { hash: self.hash.clone() }
    }
}

// ------------------------------------------------------------------
// Insert: frame, hash, compress
// ------------------------------------------------------------------

fn get_object_repr(store: &Vec<u8>) -> (r: ObjectRepr)
    ensures
        r@ == hex_of(sha1_of(store@)),
{
    let digest = sha1_digest(store.as_slice());
    let hex = hex_encode(digest.as_slice());
    proof {
        lemma_hex_of_valid(digest@);
    }
    ObjectRepr { hash: hex }
}

/// Frames and hashes the content, and unless `simulate` is set also
/// compresses the framed bytes; the caller persists them at the
/// identifier's object path.  The identifier is returned in every case:
/// nothing here touches a filesystem, so the call always succeeds.
pub fn insert_with_simulate(content: &[u8], object_type: ObjectType, simulate: bool) -> (r: Result<
    (ObjectRepr, Option<Vec<u8>>),
    DbError,
>)
    ensures
        r is Ok,
        r matches Ok(p) ==> p.0@ == object_id(content@, object_type),
        r matches Ok(p) ==> (p.1 is Some <==> !simulate),
        r matches Ok(p) ==> (p.1 matches Some(b) ==> b@ == deflate_of(store_spec(content@, object_type))
            && inflate_of(b@) == Some(store_spec(content@, object_type))),
{
    let store = get_store(content, object_type);
    let object_repr = get_object_repr(&store);
    if simulate {
        Ok((object_repr, None))
    } else {
        match zlib_compress(store.as_slice()) {
            Ok(b) => Ok((object_repr, Some(b))),
            Err(msg) => Err(DbError::WriteError { msg }),
        }
    }
}

/// Computes the identifier without producing anything to persist.
pub fn simulate_insert(content: &[u8], object_type: ObjectType) -> (r: ObjectRepr)
    ensures
        r@ == object_id(content@, object_type),
{
    let store = get_store(content, object_type);
    get_object_repr(&store)
}

/// Frames, hashes and compresses the content: the returned bytes are what
/// the caller writes at the identifier's object path.  The call always
/// succeeds; repeating it on the same input yields the same identifier
/// and byte-identical output.
pub fn insert(content: &[u8], object_type: ObjectType) -> (r: Result<(ObjectRepr, Vec<u8>), DbError>)
    ensures
        r is Ok,
        r matches Ok(p) ==> p.0@ == object_id(content@, object_type),
        r matches Ok(p) ==> p.1@ == deflate_of(store_spec(content@, object_type))
            && inflate_of(p.1@) == Some(store_spec(content@, object_type)),
{
    match insert_with_simulate(content, object_type, false) {
        Ok(p) => Ok((p.0, p.1.unwrap())),
        Err(e) => Err(e),
    }
}

// ------------------------------------------------------------------
// Read: decompress, split at the first NUL, check the header grammar
// ------------------------------------------------------------------

/// The index of the first occurrence of `b`, if any.
pub open spec fn first_at(s: Seq<u8>, b: u8) -> Option<int>
    decreases s.len(),
{
    if s.len() == 0 {
        None
    } else if s[0] == b {
        Some(0)
    } else {
        match first_at(s.subrange(1, s.len() as int), b) {
            None => None,
            Some(i) => Some(i + 1),
        }
    }
}

proof fn lemma_first_at(s: Seq<u8>, b: u8, i: int)
    requires
        0 <= i < s.len(),
        s[i] == b,
        forall|j: int| 0 <= j < i ==> s[j] != b,
    ensures
        first_at(s, b) == Some(i),
    decreases s.len(),
{
    if i == 0 {
    } else {
        let t = s.subrange(1, s.len() as int);
        assert(t[i - 1] == b);
        assert(forall|j: int| 0 <= j < i - 1 ==> t[j] == s[j + 1] && #[trigger] t[j] != b);
        lemma_first_at(t, b, i - 1);
    }
}

proof fn lemma_first_at_none(s: Seq<u8>, b: u8)
    requires
        forall|j: int| 0 <= j < s.len() ==> s[j] != b,
    ensures
        first_at(s, b) is None,
    decreases s.len(),
{
    if s.len() > 0 {
        let t = s.subrange(1, s.len() as int);
        assert(forall|j: int| 0 <= j < t.len() ==> t[j] == s[j + 1] && #[trigger] t[j] != b);
        lemma_first_at_none(t, b);
    }
}

/// Parses a header (the bytes before the first NUL) against the grammar
/// `^([a-z]+) ([1-9][0-9]*)$`, with the declared length required to equal
/// `plen`, the actual payload length.  `None` is a malformed header.
pub open spec fn header_model(h: Seq<u8>, plen: int) -> Option<ObjectType> {
    match first_at(h, 32) {
        None => None,
        Some(sp) => {
            let token = h.take(sp);
            let digits = h.subrange(sp + 1, h.len() as int);
            if is_token(token) && is_dec_literal(digits) && dec_value(digits) == plen {
                Some(type_of_token(token))
            } else {
                None
            }
        },
    }
}

/// The total map from a token's bytes to the type tag: unknown tokens
/// become `Invalid`.
pub open spec fn type_of_token(s: Seq<u8>) -> ObjectType {
    if s == ObjectType::Blob.token_bytes() {
        ObjectType::Blob
    } else if s == ObjectType::Tree.token_bytes() {
        ObjectType::Tree
    } else if s == ObjectType::Commit.token_bytes() {
        ObjectType::Commit
    } else {
        ObjectType::Invalid
    }
}

/// Parses a framed byte sequence: split at the first NUL, check the
/// header.  `None` is a malformed object.
pub open spec fn store_parse(s: Seq<u8>) -> Option<(ObjectType, Seq<u8>)> {
    match first_at(s, 0) {
        None => None,
        Some(i) => {
            let payload = s.subrange(i + 1, s.len() as int);
            match header_model(s.take(i), payload.len() as int) {
                None => None,
                Some(t) => Some((t, payload)),
            }
        },
    }
}

/// What reading raw stored bytes yields, before the strict type check.
pub enum ReadModel {
    /// Not a well-formed zlib stream.
    Unreadable,
    /// Decompressed, but the bytes do not follow the header grammar.
    Malformed,
    /// Decompressed and parsed into a type tag and payload.
    Parsed(ObjectType, Seq<u8>),
}

pub open spec fn read_model(raw: Seq<u8>) -> ReadModel {
    match inflate_of(raw) {
        Option::None => ReadModel::Unreadable,
        Option::Some(bytes) => match store_parse(bytes) {
            Option::None => ReadModel::Malformed,
            Option::Some((t, payload)) => ReadModel::Parsed(t, payload),
        },
    }
}

/// Finds the first occurrence of `b`.
fn find_byte(s: &[u8], b: u8) -> (r: Option<usize>)
    ensures
        r matches Some(i) ==> first_at(s@, b) == Some(i as int) && i < s@.len() && s@[i as int]
            == b && (forall|j: int| 0 <= j < i ==> s@[j] != b),
        r is None ==> first_at(s@, b) is None,
{
    let n = s.len();
    let mut i: usize = 0;
    while i < n
        invariant
            i <= n,
            n == s@.len(),
            forall|j: int| 0 <= j < i ==> s@[j] != b,
        decreases n - i,
    {
        if s[i] == b {
            proof {
                lemma_first_at(s@, b, i as int);
            }
            return Some(i);
        }
        i = i + 1;
    }
    proof {
        lemma_first_at_none(s@, b);
    }
    None
}

/// Wraps a header-grammar complaint.
pub fn read_error_factory(msg: &str) -> (r: DbError)
    ensures
        r is MalformedObject,
{
    DbError::MalformedObject { msg: msg.to_owned() }
}

/// Decides whether a digit string's value equals `target`.
fn dec_matches(digits: &[u8], target: usize) -> (b: bool)
    requires
        forall|i: int| 0 <= i < digits@.len() ==> is_digit(#[trigger] digits@[i]),
    ensures
        b == (dec_value(digits@) == target),
{
    let n = digits.len();
    let mut acc: u128 = 0;
    let mut i: usize = 0;
    while i < n
        invariant
            i <= n,
            n == digits@.len(),
            forall|j: int| 0 <= j < digits@.len() ==> is_digit(#[trigger] digits@[j]),
            acc == dec_value(digits@.take(i as int)),
            acc <= target,
            target <= usize::MAX,
        decreases n - i,
    {
        let d = digits[i];
        let wide: u128 = acc * 10 + (d - 48) as u128;
        proof {
            lemma_dec_take_succ(digits@, i as int);
        }
        if wide > target as u128 {
            proof {
                lemma_dec_prefix_le(digits@, i as int + 1);
            }
            return false;
        }
        acc = wide;
        i = i + 1;
    }
    proof {
        assert(digits@.take(n as int) =~= digits@);
    }
    acc == target as u128
}

/// Maps a token's bytes to the type tag; unknown tokens become `Invalid`.
fn type_of_token_bytes(token: &[u8]) -> (t: ObjectType)
    ensures
        t == type_of_token(token@),
{
    let n = token.len();
    if n == 4 && token[0] == 98 && token[1] == 108 && token[2] == 111 && token[3] == 98 {
        proof {
            assert(token@ =~= ObjectType::Blob.token_bytes());
        }
        ObjectType::Blob
    } else if n == 4 && token[0] == 116 && token[1] == 114 && token[2] == 101 && token[3] == 101 {
        proof {
            assert(token@ =~= ObjectType::Tree.token_bytes());
        }
        ObjectType::Tree
    } else if n == 6 && token[0] == 99 && token[1] == 111 && token[2] == 109 && token[3] == 109
        && token[4] == 105 && token[5] == 116 {
        proof {
            assert(token@ =~= ObjectType::Commit.token_bytes());
        }
        ObjectType::Commit
    } else {
        proof {
            assert(token@ != ObjectType::Blob.token_bytes());
            assert(token@ != ObjectType::Tree.token_bytes());
            assert(token@ != ObjectType::Commit.token_bytes());
        }
        ObjectType::Invalid
    }
}

/// Parses an already-split header and payload.  Fails with
/// `MalformedObject` when the header breaks the grammar or declares a
/// length other than the payload's; an unknown type token is not itself a
/// failure, but is rejected with `InvalidType` unless `allow_invalid`.
pub fn read_prepared(header: &[u8], data: &[u8], allow_invalid: bool) -> (r: Result<Object, DbError>)
    ensures
        ({
            match header_model(header@, data@.len() as int) {
                Option::None => r matches Err(e) && e is MalformedObject,
                Option::Some(t) => if t.spec_is_valid() || allow_invalid {
                    r matches Ok(o) && o.object_type == t && o.data@ == data@
                } else {
                    r matches Err(e) && e is InvalidType
                },
            }
        }),
{
    let hn = header.len();
    // find the single space separating token and length
    let sp = match find_byte(header, 32) {
        Some(i) => i,
        None => {
            return Err(read_error_factory("header not formatted correctly"));
        },
    };
    let ghost token = header@.take(sp as int);
    let ghost digits = header@.subrange(sp as int + 1, header@.len() as int);

    // token: one or more lowercase letters
    if sp == 0 {
        return Err(read_error_factory("header has an empty type token"));
    }
    let mut i: usize = 0;
    while i < sp
        invariant
            i <= sp,
            sp < hn,
            hn == header@.len(),
            first_at(header@, 32) == Some(sp as int),
            token == header@.take(sp as int),
            forall|j: int| 0 <= j < i ==> is_lower(#[trigger] header@[j]),
        decreases sp - i,
    {
        let c = header[i];
        if !(97 <= c && c <= 122) {
            proof {
                assert(!is_lower(token[i as int]));
            }
            return Err(read_error_factory("header not formatted correctly"));
        }
        i = i + 1;
    }
    proof {
        assert(forall|j: int| 0 <= j < token.len() ==> is_lower(#[trigger] token[j]));
        assert(is_token(token));
    }

    // length: one or more digits, no leading zero
    if sp + 1 == hn {
        proof {
            assert(digits.len() == 0);
        }
        return Err(read_error_factory("header has an empty length"));
    }
    let mut k: usize = sp + 1;
    while k < hn
        invariant
            sp + 1 <= k <= hn,
            sp < hn,
            hn == header@.len(),
            first_at(header@, 32) == Some(sp as int),
            digits == header@.subrange(sp as int + 1, header@.len() as int),
            forall|j: int| sp + 1 <= j < k ==> is_digit(#[trigger] header@[j]),
        decreases hn - k,
    {
        let c = header[k];
        if !(48 <= c && c <= 57) {
            proof {
                assert(!is_digit(digits[k - sp - 1]));
            }
            return Err(read_error_factory("header not formatted correctly"));
        }
        k = k + 1;
    }
    proof {
        assert(forall|j: int| 0 <= j < digits.len() ==> digits[j] == header@[j + sp + 1]
            && is_digit(#[trigger] digits[j]));
    }
    if header[sp + 1] == 48 {
        proof {
            assert(digits[0] == 48);
        }
        return Err(read_error_factory("header has a leading zero in the length"));
    }
    proof {
        assert(is_dec_literal(digits));
    }

    // declared length must equal the payload's byte count
    let digit_part = &header[sp + 1..hn];
    proof {
        assert(digit_part@ == digits);
    }
    if !dec_matches(digit_part, data.len()) {
        return Err(read_error_factory("size of data does not equal the header's declaration"));
    }

    let token_part = &header[0..sp];
    proof {
        assert(token_part@ == token);
    }
    let object_type = type_of_token_bytes(token_part);
    if !allow_invalid && !object_type.is_valid() {
        return Err(DbError::InvalidType);
    }
    let mut data_vec: Vec<u8> = Vec::new();
    push_bytes(&mut data_vec, data);
    Ok(Object { data: data_vec, object_type })
}

/// Reads an object from its raw stored bytes: decompress, split at the
/// first NUL, parse the header.  With `allow_invalid_type` an object whose
/// type token lies outside the closed set is returned with type `Invalid`;
/// without it such an object is rejected with `InvalidType`.
pub fn read_with_invalid(raw: &[u8], allow_invalid_type: bool) -> (r: Result<Object, DbError>)
    ensures
        ({
            match read_model(raw@) {
                ReadModel::Unreadable => r matches Err(e) && e is ReadError,
                ReadModel::Malformed => r matches Err(e) && e is MalformedObject,
                ReadModel::Parsed(t, payload) => if t.spec_is_valid() || allow_invalid_type {
                    r matches Ok(o) && o.object_type == t && o.data@ == payload
                } else {
                    r matches Err(e) && e is InvalidType
                },
            }
        }),
{
    let decoded = match zlib_decompress(raw) {
        Ok(v) => v,
        Err(msg) => {
            return Err(DbError::ReadError { msg });
        },
    };
    let n = decoded.len();
    let i = match find_byte(decoded.as_slice(), 0) {
        Some(i) => i,
        None => {
            return Err(read_error_factory("no null byte in object"));
        },
    };
    let header = &decoded.as_slice()[0..i];
    let data = &decoded.as_slice()[i + 1..n];
    proof {
        assert(header@ == decoded@.take(i as int));
        assert(data@ == decoded@.subrange(i as int + 1, decoded@.len() as int));
    }
    read_prepared(header, data, allow_invalid_type)
}

/// Strict read: an object whose type token lies outside the closed set is rejected.
pub fn read(raw: &[u8]) -> (r: Result<Object, DbError>)
    ensures
        ({
            match read_model(raw@) {
                ReadModel::Unreadable => r matches Err(e) && e is ReadError,
                ReadModel::Malformed => r matches Err(e) && e is MalformedObject,
                ReadModel::Parsed(t, payload) => if t.spec_is_valid() {
                    r matches Ok(o) && o.object_type == t && o.data@ == payload
                } else {
                    r matches Err(e) && e is InvalidType
                },
            }
        }),
{
    read_with_invalid(raw, false)
}

// ------------------------------------------------------------------
// Laws of the framing grammar
// ------------------------------------------------------------------

/// Parsing inverts framing, for any lowercase token and any declared
/// length: the parse succeeds exactly when the declared length equals the
/// payload's, and then recovers the token's type tag and the payload.
proof fn lemma_frame_parse(token: Seq<u8>, n: nat, content: Seq<u8>)
    requires
        is_token(token),
        n >= 1,
    ensures
        ({
            let s = token + seq![32u8] + dec_digits(n) + seq![0u8] + content;
            store_parse(s) == if n == content.len() {
                Some((type_of_token(token), content))
            } else {
                None::<(ObjectType, Seq<u8>)>
            }
        }),
{
    let digits = dec_digits(n);
    lemma_dec_digits(n);
    let header = token + seq![32u8] + digits;
    let s = token + seq![32u8] + digits + seq![0u8] + content;
    let hlen = header.len() as int;
    let tlen = token.len() as int;

    assert(s[hlen] == 0);
    assert forall|j: int| 0 <= j < hlen implies s[j] != 0 by {
        if j < tlen {
            assert(is_lower(token[j]));
        } else if j == tlen {
            assert(s[j] == 32);
        } else {
            assert(s[j] == digits[j - tlen - 1]);
            assert(is_digit(digits[j - tlen - 1]));
        }
    }
    lemma_first_at(s, 0, hlen);
    assert(s.take(hlen) =~= header);
    assert(s.subrange(hlen + 1, s.len() as int) =~= content);

    assert(header[tlen] == 32);
    assert forall|j: int| 0 <= j < tlen implies header[j] != 32 by {
        assert(is_lower(token[j]));
    }
    lemma_first_at(header, 32, tlen);
    assert(header.take(tlen) =~= token);
    assert(header.subrange(tlen + 1, hlen) =~= digits);
    assert(is_dec_literal(digits));
    assert(dec_value(digits) == n);
}

/// Round-trip: parsing the framed bytes of any payload of at least one
/// byte and any type in the closed set yields that payload and type
/// again.  Together with the contracts of `insert` and `read`, reading
/// back an inserted object returns the inserted content.
pub proof fn lemma_store_round_trip(content: Seq<u8>, t: ObjectType)
    requires
        t.spec_is_valid(),
        content.len() >= 1,
    ensures
        store_parse(store_spec(content, t)) == Some((t, content)),
{
    lemma_token_facts(t);
    lemma_frame_parse(t.token_bytes(), content.len(), content);
}

/// Reading back an inserted object: bytes that `insert` produced for a
/// payload of at least one byte and a type in the closed set (its
/// contract gives `inflate_of(stored) == Some(store_spec(..))`) read
/// back as exactly that payload and type.
pub proof fn lemma_read_back(content: Seq<u8>, t: ObjectType, stored: Seq<u8>)
    requires
        t.spec_is_valid(),
        content.len() >= 1,
        inflate_of(stored) == Some(store_spec(content, t)),
    ensures
        read_model(stored) == ReadModel::Parsed(t, content),
{
    lemma_store_round_trip(content, t);
}

proof fn lemma_token_facts(t: ObjectType)
    ensures
        is_token(t.token_bytes()),
        type_of_token(t.token_bytes()) == t,
{
    match t {
        ObjectType::Blob => {
            assert(is_token(t.token_bytes()));
        },
        ObjectType::Tree => {
            assert(is_token(t.token_bytes()));
            assert(t.token_bytes() != ObjectType::Blob.token_bytes());
        },
        ObjectType::Commit => {
            assert(is_token(t.token_bytes()));
            assert(t.token_bytes() != ObjectType::Blob.token_bytes());
            assert(t.token_bytes() != ObjectType::Tree.token_bytes());
        },
        ObjectType::Invalid => {
            assert(is_token(t.token_bytes()));
            assert(t.token_bytes() != ObjectType::Blob.token_bytes());
            assert(t.token_bytes() != ObjectType::Tree.token_bytes());
            assert(t.token_bytes() != ObjectType::Commit.token_bytes());
        },
    }
}

/// Determinism and idempotence of hashing: any two results that the
/// contracts of `insert`, `simulate_insert` or `insert_with_simulate`
/// allow for the same payload and type carry the same identifier, and any
/// two compressed streams they allow are byte-identical.
pub proof fn lemma_insert_deterministic(
    content: Seq<u8>,
    t: ObjectType,
    id1: Seq<char>,
    id2: Seq<char>,
    b1: Seq<u8>,
    b2: Seq<u8>,
)
    requires
        id1 == object_id(content, t),
        id2 == object_id(content, t),
        b1 == deflate_of(store_spec(content, t)),
        b2 == deflate_of(store_spec(content, t)),
    ensures
        id1 == id2,
        b1 == b2,
{
}

/// Bytes with no NUL separator never parse.
pub proof fn lemma_parse_requires_separator(bytes: Seq<u8>)
    requires
        forall|j: int| 0 <= j < bytes.len() ==> bytes[j] != 0,
    ensures
        store_parse(bytes) is None,
{
    lemma_first_at_none(bytes, 0);
}

/// A declared length that differs from the payload's actual byte count
/// never parses, whatever the token.
pub proof fn lemma_parse_length_mismatch(t: ObjectType, n: nat, content: Seq<u8>)
    requires
        n >= 1,
        n != content.len(),
    ensures
        store_parse(t.token_bytes() + seq![32u8] + dec_digits(n) + seq![0u8] + content) is None,
{
    lemma_token_facts(t);
    lemma_frame_parse(t.token_bytes(), n, content);
}

/// An unrecognized lowercase token parses to `Invalid` without failing:
/// the framed bytes still parse, carrying the `Invalid` tag.
pub proof fn lemma_unknown_token_parses_invalid(token: Seq<u8>, content: Seq<u8>)
    requires
        is_token(token),
        token != ObjectType::Blob.token_bytes(),
        token != ObjectType::Tree.token_bytes(),
        token != ObjectType::Commit.token_bytes(),
        content.len() >= 1,
    ensures
        store_parse(token + seq![32u8] + dec_digits(content.len()) + seq![0u8] + content)
            == Some((ObjectType::Invalid, content)),
{
    lemma_frame_parse(token, content.len(), content);
}

} // verus!
