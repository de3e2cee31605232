//! Deterministic, content-addressed 16-byte identities.

use vstd::prelude::*;

use crate::text::{spec_hex_byte, string_push, push_hex_byte};

verus! {

/// The default domain salt: a fixed 16-byte namespace constant.
pub const DEFAULT_DOMAIN: [u8; 16] = [
    0x85,
    0xCA,
    0x8F,
    0x3A,
    0x6A,
    0xB5,
    0x4F,
    0x93,
    0xA0,
    0xAF,
    0x99,
    0x8E,
    0xFE,
    0x51,
    0xC1,
    0x55,
];

/// The 16-byte digest that the identity hash assigns to a byte sequence.
pub uninterp spec fn blake2b16_of(data: Seq<u8>) -> Seq<u8>;

/// The bytes a hasher has absorbed so far.
pub uninterp spec fn absorbed(h: ContentHasher) -> Seq<u8>;

/// An incremental hasher for identity computation, so that file content can be
/// streamed through it in bounded-size chunks. Wraps blake2's `Blake2b128`
/// (BLAKE2b configured for a 16-byte output).
#[verifier::external_body]
pub struct ContentHasher {
    inner: blake2::Blake2b128,
}

impl ContentHasher {
    /// Relies on `digest::Digest::new` for blake2's `Blake2b128`: a fresh
    /// hasher that has absorbed nothing.
    #[verifier::external_body]
    pub fn new() -> (h: ContentHasher)
        ensures
            absorbed(h) == Seq::<u8>::empty(),
    {
        ContentHasher { inner: blake2::Digest::new() }
    }

    /// Relies on `digest::Digest::update` for blake2's `Blake2b128`: absorbs
    /// the given bytes after everything absorbed before.
    #[verifier::external_body]
    pub fn absorb(&mut self, data: &[u8])
        ensures
            absorbed(*final(self)) == absorbed(*old(self)) + data@,
    {
        blake2::Digest::update(&mut self.inner, data);
    }

    /// Relies on `digest::Digest::finalize` for blake2's `Blake2b128`: returns
    /// the 16-byte BLAKE2b digest of everything absorbed.
    #[verifier::external_body]
    pub fn finish(self) -> (r: [u8; 16])
        ensures
            r@ == blake2b16_of(absorbed(self)),
    {
        blake2::Digest::finalize(self.inner).into()
    }
}

/// A builder for deterministic file-unique identities: the identity is a pure
/// function of (domain salt, context bytes, content), never a random value.
#[derive(Debug, Clone)]
pub struct UuidBuilder {
    /// The domain salt for domain separation; `DEFAULT_DOMAIN` when absent.
    domain: Option<Vec<u8>>,
    /// The item-specific context (for example an external item ID); empty when
    /// absent.
    context: Option<Vec<u8>>,
}

impl UuidBuilder {
    /// The domain salt in effect.
    pub closed spec fn effective_domain(self) -> Seq<u8> {
        match self.domain {
            Some(d) => d@,
            None => DEFAULT_DOMAIN@,
        }
    }

    /// The context bytes in effect.
    pub closed spec fn effective_context(self) -> Seq<u8> {
        match self.context {
            Some(c) => c@,
            None => Seq::<u8>::empty(),
        }
    }

    /// The identity bytes assigned to the given content: the digest of domain,
    /// then context, then the content itself.
    pub open spec fn spec_identity(self, content: Seq<u8>) -> Seq<u8> {
        blake2b16_of(self.effective_domain() + self.effective_context() + content)
    }

    /// Creates a builder with the default domain and an empty context.
    pub fn new() -> (r: Self)
        ensures
            r.effective_domain() == DEFAULT_DOMAIN@,
            r.effective_context() == Seq::<u8>::empty(),
    {
        Self { domain: None, context: None }
    }

    /// Sets the domain salt.
    pub fn domain(self, domain: Vec<u8>) -> (r: Self)
        ensures
            r.effective_domain() == domain@,
            r.effective_context() == self.effective_context(),
    {
        Self { domain: Some(domain), ..self }
    }

    /// Sets the context bytes.
    pub fn context(self, context: Vec<u8>) -> (r: Self)
        ensures
            r.effective_domain() == self.effective_domain(),
            r.effective_context() == context@,
    {
        Self { context: Some(context), ..self }
    }

    /// Starts a hasher primed with the domain and context prefix; content can
    /// then be streamed into it chunk by chunk.
    pub fn begin(&self) -> (h: ContentHasher)
        ensures
            absorbed(h) == self.effective_domain() + self.effective_context(),
    {
        let mut h = ContentHasher::new();
        match &self.domain {
            Some(d) => h.absorb(d.as_slice()),
            None => h.absorb(DEFAULT_DOMAIN.as_slice()),
        }
        match &self.context {
            Some(c) => h.absorb(c.as_slice()),
            None => {},
        }
        proof {
            assert(absorbed(h) =~= self.effective_domain() + self.effective_context());
        }
        h
    }

    /// Computes the identity of content that is already in memory.
    pub fn finalize_bytes(&self, content: &[u8]) -> (r: Uuid)
        ensures
            r.bytes@ == self.spec_identity(content@),
    {
        let mut h = self.begin();
        h.absorb(content);
        proof {
            assert(absorbed(h) =~= self.effective_domain() + self.effective_context()
                + content@);
        }
        Uuid { bytes: h.finish() }
    }
}

/// Law: identity assignment is deterministic. Builders with equal salts applied
/// to equal content are assigned equal identity bytes; the identity is a
/// function of (domain, context, content) and of nothing else.
pub proof fn lemma_identity_deterministic(
    b1: UuidBuilder,
    b2: UuidBuilder,
    c1: Seq<u8>,
    c2: Seq<u8>,
)
    requires
        b1.effective_domain() == b2.effective_domain(),
        b1.effective_context() == b2.effective_context(),
        c1 == c2,
    ensures
        b1.spec_identity(c1) == b2.spec_identity(c2),
{
}

/// A deterministic 16-byte identity.
#[derive(Debug, Clone, Copy, PartialEq, Eq)]
pub struct Uuid {
    /// The identity bytes.
    pub bytes: [u8; 16],
}

/// The upper-case hex rendering of a byte sequence.
pub open spec fn spec_hex_bytes(bytes: Seq<u8>) -> Seq<char>
    decreases bytes.len(),
{
    if bytes.len() == 0 {
        Seq::<char>::empty()
    } else {
        spec_hex_byte(bytes[0]) + spec_hex_bytes(bytes.drop_first())
    }
}

/// Rendering hex distributes over appending one byte at the end.
proof fn lemma_hex_bytes_push(s: Seq<u8>, b: u8)
    ensures
        spec_hex_bytes(s.push(b)) == spec_hex_bytes(s) + spec_hex_byte(b),
    decreases s.len(),
{
    if s.len() == 0 {
        assert(s.push(b)[0] == b);
        assert(s.push(b).drop_first() =~= Seq::<u8>::empty());
        assert(spec_hex_bytes(s.push(b)) == spec_hex_byte(b) + spec_hex_bytes(
            Seq::<u8>::empty(),
        ));
        assert(spec_hex_bytes(s.push(b)) =~= spec_hex_bytes(s) + spec_hex_byte(b));
    } else {
        assert(s.push(b)[0] == s[0]);
        assert(s.push(b).drop_first() =~= s.drop_first().push(b));
        lemma_hex_bytes_push(s.drop_first(), b);
        assert(spec_hex_bytes(s.push(b)) == spec_hex_byte(s[0]) + (spec_hex_bytes(s.drop_first())
            + spec_hex_byte(b)));
        assert(spec_hex_bytes(s.push(b)) =~= spec_hex_bytes(s) + spec_hex_byte(b));
    }
}

/// Appends the upper-case hex rendering of `bytes[from..to]`.
fn push_hex_range(out: &mut String, bytes: &[u8], from: usize, to: usize)
    requires
        from <= to <= bytes@.len(),
    ensures
        final(out)@ == old(out)@ + spec_hex_bytes(bytes@.subrange(from as int, to as int)),
{
    let mut i: usize = from;
    proof {
        assert(bytes@.subrange(from as int, from as int) =~= Seq::<u8>::empty());
    }
    while i < to
        invariant
            from <= i <= to <= bytes@.len(),
            out@ == old(out)@ + spec_hex_bytes(bytes@.subrange(from as int, i as int)),
        decreases to - i,
    {
        push_hex_byte(out, bytes[i]);
        proof {
            assert(bytes@.subrange(from as int, i + 1 as int) =~= bytes@.subrange(
                from as int,
                i as int,
            ).push(bytes@[i as int]));
            lemma_hex_bytes_push(bytes@.subrange(from as int, i as int), bytes@[i as int]);
        }
        i = i + 1;
    }
}

/// The textual form of an identity: upper-case hex grouped 4-2-2-2-6,
/// hyphen-separated.
pub open spec fn spec_uuid_text(bytes: Seq<u8>) -> Seq<char> {
    spec_hex_bytes(bytes.subrange(0, 4)) + seq!['-'] + spec_hex_bytes(bytes.subrange(4, 6))
        + seq!['-'] + spec_hex_bytes(bytes.subrange(6, 8)) + seq!['-'] + spec_hex_bytes(
        bytes.subrange(8, 10),
    ) + seq!['-'] + spec_hex_bytes(bytes.subrange(10, 16))
}

impl Uuid {
    /// Renders the identity in its textual form.
    pub fn hyphenated(&self) -> (r: String)
        ensures
            r@ == spec_uuid_text(self.bytes@),
    {
        let mut out = String::new();
        push_hex_range(&mut out, self.bytes.as_slice(), 0, 4);
        string_push(&mut out, '-');
        push_hex_range(&mut out, self.bytes.as_slice(), 4, 6);
        string_push(&mut out, '-');
        push_hex_range(&mut out, self.bytes.as_slice(), 6, 8);
        string_push(&mut out, '-');
        push_hex_range(&mut out, self.bytes.as_slice(), 8, 10);
        string_push(&mut out, '-');
        push_hex_range(&mut out, self.bytes.as_slice(), 10, 16);
        proof {
            assert(out@ =~= spec_uuid_text(self.bytes@));
        }
        out
    }
}

} // verus!
