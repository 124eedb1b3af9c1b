//! Annotated byte buffers with a canonical base64 text form.
use base64::prelude::BASE64_STANDARD;
use base64::{DecodeError, Engine};
use vstd::prelude::*;
use vstd::string::StringExecFns;
use vstd::utf8::{encode_utf8, is_ascii_chars, is_ascii_chars_encode_utf8};

use crate::hashing::{bytes_hash, feed_hasher, hash_bytes, hash_opt_text, mix, mix_exec, opt_text_hash};
use crate::id::{opt_str_eq, opt_str_view};

verus! {

/// The symbol of the standard base64 alphabet for a six-bit value:
/// `A`-`Z`, `a`-`z`, `0`-`9`, `+`, `/`.
pub open spec fn symbol(v: int) -> u8 {
    if v < 26 {
        (65 + v) as u8
    } else if v < 52 {
        (97 + v - 26) as u8
    } else if v < 62 {
        (48 + v - 52) as u8
    } else if v == 62 {
        43
    } else {
        47
    }
}

/// The padding byte `=`.
pub open spec fn pad() -> u8 {
    61
}

/// The standard, padded base64 encoding of `data`, as bytes: each group of
/// three bytes gives four symbols; a last group of two bytes gives three
/// symbols and one `=`, one of a single byte two symbols and `==`.
pub open spec fn base64_bytes(data: Seq<u8>) -> Seq<u8>
    decreases data.len(),
{
    if data.len() == 0 {
        seq![]
    } else if data.len() == 1 {
        let a = data[0] as int;
        seq![symbol(a / 4), symbol((a % 4) * 16), pad(), pad()]
    } else if data.len() == 2 {
        let a = data[0] as int;
        let b = data[1] as int;
        seq![symbol(a / 4), symbol((a % 4) * 16 + b / 16), symbol((b % 16) * 4), pad()]
    } else {
        let a = data[0] as int;
        let b = data[1] as int;
        let c = data[2] as int;
        seq![
            symbol(a / 4),
            symbol((a % 4) * 16 + b / 16),
            symbol((b % 16) * 4 + c / 64),
            symbol(c % 64),
        ] + base64_bytes(data.subrange(3, data.len() as int))
    }
}

/// The standard, padded base64 text of `data`: one character per byte of
/// `base64_bytes`.
pub open spec fn base64_of(data: Seq<u8>) -> Seq<char> {
    base64_bytes(data).map_values(|b: u8| b as char)
}

/// Whether `encoded` is the base64 encoding of some byte sequence.
pub open spec fn is_canonical_base64(encoded: Seq<u8>) -> bool {
    exists|x: Seq<u8>| encoded == #[trigger] base64_bytes(x)
}

/// Every byte of an encoding is a symbol of the alphabet or `=`.
pub open spec fn in_alphabet(b: u8) -> bool {
    (65 <= b <= 90) || (97 <= b <= 122) || (48 <= b <= 57) || b == 43 || b == 47 || b == 61
}

proof fn lemma_symbol_in_alphabet(v: int)
    requires
        0 <= v < 64,
    ensures
        in_alphabet(symbol(v)),
{
}

/// The encoding of `data` has four bytes for each started group of three,
/// all of them in the alphabet.
pub proof fn lemma_base64_bytes_shape(data: Seq<u8>)
    ensures
        base64_bytes(data).len() == 4 * ((data.len() + 2) / 3),
        forall|i: int|
            0 <= i < base64_bytes(data).len() ==> in_alphabet(#[trigger] base64_bytes(data)[i]),
    decreases data.len(),
{
    let e = base64_bytes(data);
    if data.len() == 0 {
    } else if data.len() <= 2 {
        let a = data[0] as int;
        lemma_symbol_in_alphabet(a / 4);
        if data.len() == 1 {
            lemma_symbol_in_alphabet((a % 4) * 16);
        } else {
            let b = data[1] as int;
            lemma_symbol_in_alphabet((a % 4) * 16 + b / 16);
            lemma_symbol_in_alphabet((b % 16) * 4);
        }
    } else {
        let a = data[0] as int;
        let b = data[1] as int;
        let c = data[2] as int;
        let rest = data.subrange(3, data.len() as int);
        lemma_base64_bytes_shape(rest);
        lemma_symbol_in_alphabet(a / 4);
        lemma_symbol_in_alphabet((a % 4) * 16 + b / 16);
        lemma_symbol_in_alphabet((b % 16) * 4 + c / 64);
        lemma_symbol_in_alphabet(c % 64);
        assert forall|i: int| 0 <= i < e.len() implies in_alphabet(#[trigger] e[i]) by {
            if i >= 4 {
                assert(e[i] == base64_bytes(rest)[i - 4]);
            }
        }
    }
}

/// The base64 text is ASCII, and its UTF-8 bytes are `base64_bytes`.
pub proof fn lemma_base64_text_bytes(data: Seq<u8>)
    ensures
        is_ascii_chars(base64_of(data)),
        encode_utf8(base64_of(data)) == base64_bytes(data),
        base64_of(data).len() == 4 * ((data.len() + 2) / 3),
{
    lemma_base64_bytes_shape(data);
    let e = base64_bytes(data);
    let t = base64_of(data);
    assert forall|i: int| 0 <= i < t.len() implies '\0' <= #[trigger] t[i] <= '\u{7f}' && t[i] as u8
        == e[i] by {
        assert(in_alphabet(e[i]));
        assert(t[i] == e[i] as char);
    }
    is_ascii_chars_encode_utf8(t);
    assert(encode_utf8(t) =~= e);
}

/// Decoding the bytes of the text that encodes `data` accepts them: they are
/// exactly `base64_bytes(data)`, so `Blob::decode_base64` gives `data` back.
pub proof fn law_base64_round_trip(data: Seq<u8>)
    ensures
        encode_utf8(base64_of(data)) == base64_bytes(data),
        is_canonical_base64(encode_utf8(base64_of(data))),
{
    lemma_base64_text_bytes(data);
}

/// The UTF-8 bytes of two texts one after the other are those of each.
pub proof fn lemma_encode_utf8_concat(a: Seq<char>, b: Seq<char>)
    ensures
        encode_utf8(a + b) == encode_utf8(a) + encode_utf8(b),
    decreases a.len(),
{
    if a.len() == 0 {
        assert(a + b =~= b);
    } else {
        lemma_encode_utf8_concat(a.drop_first(), b);
        assert((a + b).drop_first() =~= a.drop_first() + b);
        assert((a + b)[0] == a[0]);
    }
}

/// The display form of an annotated blob is not base64: the byte of its `:`
/// is outside the alphabet, so `Blob::decode_base64` rejects it.
pub proof fn law_annotated_display_not_decodable(b: (Option<Seq<char>>, Seq<u8>))
    requires
        b.0 is Some,
    ensures
        exists|i: int|
            0 <= i < encode_utf8(display_of(b)).len() && !in_alphabet(
                #[trigger] encode_utf8(display_of(b))[i],
            ),
{
    let m = b.0->Some_0;
    let colon = seq![':'];
    lemma_encode_utf8_concat(m, colon);
    lemma_encode_utf8_concat(m + colon, base64_of(b.1));
    assert(display_of(b) == (m + colon) + base64_of(b.1));
    assert(colon.drop_first() =~= Seq::<char>::empty());
    assert(colon[0] as u32 == 58u32);
    assert((58u32 & 0x7F) == 58u32) by (bit_vector);
    assert(vstd::utf8::encode_scalar(58u32) =~= seq![58u8]);
    assert(encode_utf8(colon.drop_first()) =~= Seq::<u8>::empty());
    assert(encode_utf8(colon) == vstd::utf8::encode_scalar(colon[0] as u32) + encode_utf8(
        colon.drop_first(),
    ));
    assert(encode_utf8(colon) =~= seq![58u8]);
    let i = encode_utf8(m).len() as int;
    assert(encode_utf8(display_of(b))[i] == 58u8);
}

/// Why a text is not canonical base64.
#[derive(Debug, Clone, Copy, PartialEq, Eq, Structural)]
pub enum Base64Error {
    /// A byte outside the alphabet, at the given offset.
    InvalidByte(usize, u8),
    /// The number of symbols cannot end a base64 text.
    InvalidLength(usize),
    /// The last symbol, at the given offset, carries bits that would be lost.
    InvalidLastSymbol(usize, u8),
    /// Padding is missing or wrong.
    InvalidPadding,
}

/// Relies on `base64::Engine::encode` with the `STANDARD` engine: the
/// standard alphabet, `=` padding, no line breaks.
#[verifier::external_body]
fn encode_standard(data: &[u8]) -> (r: String)
    ensures
        r@ == base64_of(data@),
{
    BASE64_STANDARD.encode(data)
}

/// Relies on `base64::Engine::decode` with the `STANDARD` engine, whose
/// configuration demands canonical padding and no trailing bits: it accepts
/// exactly the texts that its encoder produces, and returns what was encoded.
#[verifier::external_body]
fn decode_standard(encoded: &[u8]) -> (r: Result<Vec<u8>, Base64Error>)
    ensures
        r is Ok ==> encoded@ == base64_bytes(r->Ok_0@),
        forall|x: Seq<u8>| encoded@ == #[trigger] base64_bytes(x) ==> (r is Ok && r->Ok_0@ == x),
{
    match BASE64_STANDARD.decode(encoded) {
        Ok(v) => Ok(v),
        Err(DecodeError::InvalidByte(o, b)) => Err(Base64Error::InvalidByte(o, b)),
        Err(DecodeError::InvalidLength(n)) => Err(Base64Error::InvalidLength(n)),
        Err(DecodeError::InvalidLastSymbol(o, b)) => Err(Base64Error::InvalidLastSymbol(o, b)),
        Err(DecodeError::InvalidPadding) => Err(Base64Error::InvalidPadding),
    }
}

/// Relies on `Vec::capacity`, which is never below the length.
#[verifier::external_body]
fn vec_capacity(v: &Vec<u8>) -> (r: usize)
    ensures
        r >= v@.len(),
{
    v.capacity()
}

/// A byte buffer with an optional annotation fixed at construction.
#[derive(Debug, Clone)]
pub struct Blob {
    metadata: Option<String>,
    data: Vec<u8>,
    /// The capacity asked for at construction. It takes no part in equality.
    requested: usize,
}

impl View for Blob {
    type V = (Option<Seq<char>>, Seq<u8>);

    closed spec fn view(&self) -> (Option<Seq<char>>, Seq<u8>) {
        (opt_str_view(self.metadata), self.data@)
    }
}

/// The display form of a blob: `metadata:` followed by the base64 text when
/// an annotation is present, the base64 text alone otherwise.
pub open spec fn display_of(b: (Option<Seq<char>>, Seq<u8>)) -> Seq<char> {
    match b.0 {
        Some(m) => m + seq![':'] + base64_of(b.1),
        None => base64_of(b.1),
    }
}

impl Blob {
    /// An empty buffer without annotation.
    pub fn new() -> (r: Blob)
        ensures
            r@ == (None::<Seq<char>>, Seq::<u8>::empty()),
    {
        Blob { metadata: None, data: Vec::new(), requested: 0 }
    }

    /// An empty buffer annotated with `metadata`.
    pub fn with_metadata(metadata: &str) -> (r: Blob)
        ensures
            r@ == (Some(metadata@), Seq::<u8>::empty()),
    {
        Blob { metadata: Some(metadata.to_string()), data: Vec::new(), requested: 0 }
    }

/// The capacity that the buffer was asked for when it was built: zero but
    /// for `with_capacity` and `with_capacity_and_metadata`.
    pub closed spec fn requested_capacity(&self) -> nat {
        self.requested as nat
    }

    /// An empty buffer without annotation, with room for `capacity` bytes.
    pub fn with_capacity(capacity: usize) -> (r: Blob)
        ensures
            r@ == (None::<Seq<char>>, Seq::<u8>::empty()),
            r.requested_capacity() == capacity,
    {
        Blob { metadata: None, data: Vec::with_capacity(capacity), requested: capacity }
    }

    /// An empty annotated buffer, with room for `capacity` bytes.
    pub fn with_capacity_and_metadata(capacity: usize, metadata: &str) -> (r: Blob)
        ensures
            r@ == (Some(metadata@), Seq::<u8>::empty()),
            r.requested_capacity() == capacity,
    {
        Blob {
            metadata: Some(metadata.to_string()),
            data: Vec::with_capacity(capacity),
            requested: capacity,
        }
    }

    /// A buffer that owns `data`, without annotation.
    pub fn from_vec(data: Vec<u8>) -> (r: Blob)
        ensures
            r@ == (None::<Seq<char>>, data@),
    {
        Blob { data, metadata: None, requested: 0 }
    }

    /// A buffer that owns `data`, annotated with `metadata`.
    pub fn from_vec_with_metadata(data: Vec<u8>, metadata: &str) -> (r: Blob)
        ensures
            r@ == (Some(metadata@), data@),
    {
        let metadata = Some(metadata.to_string());
        Blob { data, metadata, requested: 0 }
    }

    /// Decodes a base64 text into a buffer without annotation. The text is
    /// taken as base64 alone: a `metadata:` prefix is not split off.
    pub fn decode_base64(encoded: &[u8]) -> (r: Result<Blob, Base64Error>)
        ensures
            r is Ok <==> is_canonical_base64(encoded@),
            r is Ok ==> r->Ok_0@.0 is None && encoded@ == base64_bytes(r->Ok_0@.1),
            forall|x: Seq<u8>|
                encoded@ == #[trigger] base64_bytes(x) ==> (r is Ok && r->Ok_0@ == (
                None::<Seq<char>>,
                x,
            )),
            (exists|i: int| 0 <= i < encoded@.len() && !in_alphabet(#[trigger] encoded@[i]))
                ==> r is Err,
    {
        let r = decode_standard(encoded);
        if let Ok(v) = &r {
            proof {
                lemma_base64_bytes_shape(v@);
            }
        }
        match r {
            Ok(data) => Ok(Self::from_vec(data)),
            Err(e) => Err(e),
        }
    }

    /// Decodes a base64 text into a buffer annotated with `metadata`.
    pub fn decode_base64_with_metadata(encoded: &[u8], metadata: &str) -> (r: Result<
        Blob,
        Base64Error,
    >)
        ensures
            r is Ok <==> is_canonical_base64(encoded@),
            r is Ok ==> r->Ok_0@.0 == Some(metadata@) && encoded@ == base64_bytes(r->Ok_0@.1),
            forall|x: Seq<u8>|
                encoded@ == #[trigger] base64_bytes(x) ==> (r is Ok && r->Ok_0@ == (
                Some(metadata@),
                x,
            )),
            (exists|i: int| 0 <= i < encoded@.len() && !in_alphabet(#[trigger] encoded@[i]))
                ==> r is Err,
    {
        let r = decode_standard(encoded);
        if let Ok(v) = &r {
            proof {
                lemma_base64_bytes_shape(v@);
            }
        }
        match r {
            Ok(data) => Ok(Self::from_vec_with_metadata(data, metadata)),
            Err(e) => Err(e),
        }
    }

    /// How many bytes the buffer holds without growing: never less than its
    /// length, nor than the capacity it was asked for. A vector made with
    /// `Vec::with_capacity(n)` holds at least `n` and never shrinks by itself,
    /// so the larger of the two figures is the vector's own capacity.
    pub fn capacity(&self) -> (r: usize)
        ensures
            r >= self@.1.len(),
            r >= self.requested_capacity(),
    {
        let held = vec_capacity(&self.data);
        if held < self.requested {
            self.requested
        } else {
            held
        }
    }

    pub fn metadata(&self) -> (r: Option<&String>)
        ensures
            match r {
                Some(s) => self@.0 == Some(s@),
                None => self@.0 is None,
            },
    {
        self.metadata.as_ref()
    }

    /// The bytes, as they are.
    pub fn as_bytes(&self) -> (r: &[u8])
        ensures
            r@ == self@.1,
    {
        self.data.as_slice()
    }

    /// The base64 text of the bytes; the annotation takes no part.
    pub fn encode_base64(&self) -> (r: String)
        ensures
            r@ == base64_of(self@.1),
            r@.len() == 4 * ((self@.1.len() + 2) / 3),
            is_ascii_chars(r@),
            encode_utf8(r@) == base64_bytes(self@.1),
    {
        proof {
            lemma_base64_text_bytes(self@.1);
        }
        encode_standard(self.data.as_slice())
    }

    /// The display form: the base64 text, after `metadata:` when annotated.
    pub fn to_display_string(&self) -> (r: String)
        ensures
            r@ == display_of(self@),
    {
        let data = self.encode_base64();
        match &self.metadata {
            None => data,
            Some(meta) => {
                let mut out = meta.clone();
                out.append(":");
                out.append(data.as_str());
                proof {
                    reveal_strlit(":");
                }
                out
            },
        }
    }

    /// Gives up the buffer and returns its bytes.
    pub fn into_vec(self) -> (r: Vec<u8>)
        ensures
            r@ == self@.1,
    {
        self.data
    }

    /// Copies as many bytes as fit into `buf`, from the start of the buffer,
    /// and returns how many were copied. The buffer is left as it was.
    pub fn read(&self, buf: &mut [u8]) -> (r: usize)
        ensures
            r == if self@.1.len() < old(buf)@.len() {
                self@.1.len()
            } else {
                old(buf)@.len()
            },
            final(buf)@ == self@.1.subrange(0, r as int) + old(buf)@.subrange(
                r as int,
                old(buf)@.len() as int,
            ),
    {
        let n: usize = if self.data.len() < buf.len() {
            self.data.len()
        } else {
            buf.len()
        };
        let mut i: usize = 0;
        while i < n
            invariant
                n <= self.data@.len(),
                n <= buf@.len(),
                buf@.len() == old(buf)@.len(),
                i <= n,
                forall|k: int| 0 <= k < i ==> buf@[k] == self.data@[k],
                forall|k: int| i <= k < buf@.len() ==> buf@[k] == old(buf)@[k],
            decreases n - i,
        {
            buf[i] = self.data[i];
            i = i + 1;
        }
        assert(buf@ =~= self@.1.subrange(0, n as int) + old(buf)@.subrange(
            n as int,
            old(buf)@.len() as int,
        ));
        n
    }

    /// Appends every byte to `buf` and returns their number.
    pub fn read_to_end(&self, buf: &mut Vec<u8>) -> (r: usize)
        ensures
            final(buf)@ == old(buf)@ + self@.1,
            r == self@.1.len(),
    {
        buf.extend_from_slice(self.data.as_slice());
        assert(buf@ =~= old(buf)@ + self@.1);
        self.data.len()
    }

    /// Appends the base64 text (not the raw bytes) to `buf` and returns the
    /// number of characters appended.
    pub fn read_to_string(&self, buf: &mut String) -> (r: usize)
        ensures
            final(buf)@ == old(buf)@ + base64_of(self@.1),
            r == base64_of(self@.1).len(),
    {
        let data = self.encode_base64();
        buf.append(data.as_str());
        data.as_str().unicode_len()
    }

    /// Appends `bytes` and returns their number.
    pub fn write(&mut self, bytes: &[u8]) -> (r: usize)
        ensures
            final(self)@ == (old(self)@.0, old(self)@.1 + bytes@),
            final(self).requested_capacity() == old(self).requested_capacity(),
            r == bytes@.len(),
    {
        self.write_all(bytes);
        bytes.len()
    }

    /// Appends `bytes`.
    pub fn write_all(&mut self, bytes: &[u8])
        ensures
            final(self)@ == (old(self)@.0, old(self)@.1 + bytes@),
            final(self).requested_capacity() == old(self).requested_capacity(),
    {
        self.data.extend_from_slice(bytes);
        assert(self.data@ =~= old(self)@.1 + bytes@);
    }

    /// Two blobs are equal when annotation and bytes both agree.
    pub fn equals(&self, other: &Blob) -> (r: bool)
        ensures
            r == (self@ == other@),
    {
        let same_data = self.data == other.data;
        if same_data {
            assert(self.data@ =~= other.data@);
        }
        same_data && opt_str_eq(&self.metadata, &other.metadata)
    }

    /// Nothing is held back, so there is nothing to do.
    pub fn flush(&mut self)
        ensures
            final(self)@ == old(self)@,
    {
    }
}

/// The hash of a blob, a function of its annotation and bytes.
pub open spec fn blob_hash(v: (Option<Seq<char>>, Seq<u8>)) -> u64 {
    mix(opt_text_hash(v.0), bytes_hash(v.1))
}

impl Blob {
    /// A hash that equal blobs share.
    pub fn hash_code(&self) -> (r: u64)
        ensures
            r == blob_hash(self@),
    {
        mix_exec(hash_opt_text(&self.metadata), hash_bytes(self.data.as_slice()))
    }
}

/// Hashes through `hash_code`, so blobs that are equal hash alike whatever
/// capacity they were asked for.
impl std::hash::Hash for Blob {
    fn hash<H: std::hash::Hasher>(&self, state: &mut H) {
        feed_hasher(state, self.hash_code());
    }
}

impl Default for Blob {
    /// An empty buffer without annotation.
    fn default() -> (r: Blob)
        ensures
            r@ == (None::<Seq<char>>, Seq::<u8>::empty()),
    {
        Blob::new()
    }
}

/// Parsing a blob decodes its base64 text; no annotation is read from it.
impl std::str::FromStr for Blob {
    type Err = Base64Error;

    fn from_str(s: &str) -> Result<Blob, Base64Error> {
        Blob::decode_base64(s.as_bytes())
    }
}

impl PartialEq for Blob {
    fn eq(&self, other: &Blob) -> (r: bool) {
        self.equals(other)
    }
}

impl Eq for Blob {}

impl vstd::std_specs::cmp::PartialEqSpecImpl for Blob {
    open spec fn obeys_eq_spec() -> bool {
        true
    }

    open spec fn eq_spec(&self, other: &Blob) -> bool {
        self@ == other@
    }
}

} // verus!
