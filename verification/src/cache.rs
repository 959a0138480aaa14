//! The response cache: a content-addressed key derived from the normalized
//! request fields, and a flat key/value store where a later `put` overwrites
//! an earlier one.
use vstd::prelude::*;
use vstd::utf8::encode_utf8;

use crate::messages::{ChatMessage, ChatRequest, Role};

verus! {

/// The textual name of a role, as it enters the cache key.
pub open spec fn role_label(r: Role) -> Seq<char> {
    match r {
        Role::System => "system"@,
        Role::User => "user"@,
        Role::Assistant => "assistant"@,
        Role::Tool => "tool"@,
    }
}

/// The four bytes of a 32-bit value in little-endian order.
pub open spec fn u32_le_bytes(x: u32) -> Seq<u8> {
    seq![
        (x & 0xff) as u8,
        ((x >> 8) & 0xff) as u8,
        ((x >> 16) & 0xff) as u8,
        ((x >> 24) & 0xff) as u8,
    ]
}

/// Equal little-endian encodings come only from equal values.
pub proof fn lemma_u32_le_bytes_injective(a: u32, b: u32)
    requires
        u32_le_bytes(a) == u32_le_bytes(b),
    ensures
        a == b,
{
    assert(u32_le_bytes(a)[0] == u32_le_bytes(b)[0]);
    assert(u32_le_bytes(a)[1] == u32_le_bytes(b)[1]);
    assert(u32_le_bytes(a)[2] == u32_le_bytes(b)[2]);
    assert(u32_le_bytes(a)[3] == u32_le_bytes(b)[3]);
    assert((a & 0xff) as u8 == (b & 0xff) as u8 && ((a >> 8) & 0xff) as u8 == ((b >> 8) & 0xff)
        as u8 && ((a >> 16) & 0xff) as u8 == ((b >> 16) & 0xff) as u8 && ((a >> 24) & 0xff) as u8
        == ((b >> 24) & 0xff) as u8 ==> a == b) by (bit_vector);
}

/// The bytes each message contributes to the key: its role's name followed by
/// its content, both UTF-8 encoded, in conversation order.
pub open spec fn messages_key_bytes(ms: Seq<ChatMessage>) -> Seq<u8>
    decreases ms.len(),
{
    if ms.len() == 0 {
        Seq::empty()
    } else {
        messages_key_bytes(ms.drop_last()) + encode_utf8(role_label(ms.last().role)) + encode_utf8(
            ms.last().content@,
        )
    }
}

/// The canonical byte string a request's cache key is a digest of: provider
/// id, model, optional system text, each message's role and content in order,
/// then the optional temperature bit pattern and the optional output-token
/// limit, both little-endian.
pub open spec fn canonical_request_bytes(
    provider: Seq<char>,
    model: Seq<char>,
    system: Option<Seq<char>>,
    messages: Seq<ChatMessage>,
    temperature_bits: Option<u32>,
    max_tokens: Option<u32>,
) -> Seq<u8> {
    encode_utf8(provider) + encode_utf8(model) + (match system {
        Some(s) => encode_utf8(s),
        None => Seq::empty(),
    }) + messages_key_bytes(messages) + (match temperature_bits {
        Some(t) => u32_le_bytes(t),
        None => Seq::empty(),
    }) + (match max_tokens {
        Some(m) => u32_le_bytes(m),
        None => Seq::empty(),
    })
}

/// The lowercase hexadecimal text of the BLAKE3 digest of a byte string.
pub uninterp spec fn blake3_hex(bytes: Seq<u8>) -> Seq<char>;

/// Relies on `blake3::hash` and `blake3::Hash::to_hex`: the digest depends on
/// the input bytes alone, and its hexadecimal form is 64 characters long.
#[verifier::external_body]
pub fn hash_bytes(bytes: &[u8]) -> (r: String)
    ensures
        r@ == blake3_hex(bytes@),
        r@.len() == 64,
{
    let h = blake3::hash(bytes);
    h.to_hex().to_string()
}

/// Appends the little-endian bytes of a 32-bit value.
fn push_u32_le(out: &mut Vec<u8>, x: u32)
    ensures
        final(out)@ == old(out)@ + u32_le_bytes(x),
{
    out.push(x as u8);
    out.push((x >> 8) as u8);
    out.push((x >> 16) as u8);
    out.push((x >> 24) as u8);
    proof {
        assert((x & 0xff) as u8 == x as u8 && ((x >> 8) & 0xff) as u8 == (x >> 8) as u8 && ((x
            >> 16) & 0xff) as u8 == (x >> 16) as u8 && ((x >> 24) & 0xff) as u8 == (x >> 24) as u8)
            by (bit_vector);
        assert(out@ =~= old(out)@ + u32_le_bytes(x));
    }
}

/// Appends the UTF-8 bytes of a string.
fn push_str_bytes(out: &mut Vec<u8>, s: &str)
    ensures
        final(out)@ == old(out)@ + encode_utf8(s@),
{
    let bytes = s.as_bytes_vec();
    let mut i: usize = 0;
    proof {
        assert(out@ =~= old(out)@ + bytes@.take(0));
    }
    while i < bytes.len()
        invariant
            i <= bytes@.len(),
            out@ == old(out)@ + bytes@.take(i as int),
        decreases bytes@.len() - i,
    {
        out.push(bytes[i]);
        proof {
            assert(bytes@.take(i + 1) =~= bytes@.take(i as int).push(bytes@[i as int]));
        }
        i = i + 1;
    }
    proof {
        assert(bytes@.take(bytes@.len() as int) =~= bytes@);
    }
}

/// The wire name of a role.
pub fn role_name(r: Role) -> (s: &'static str)
    ensures
        s@ == role_label(r),
{
    match r {
        Role::System => "system",
        Role::User => "user",
        Role::Assistant => "assistant",
        Role::Tool => "tool",
    }
}

/// Builds the canonical byte string of a request's identity.
pub fn canonical_bytes(provider: &str, req: &ChatRequest) -> (r: Vec<u8>)
    ensures
        r@ == canonical_request_bytes(
            provider@,
            req.model@,
            match req.system {
                Some(s) => Some(s@),
                None => None,
            },
            req.messages@,
            req.temperature_bits,
            req.max_tokens,
        ),
{
    let mut out: Vec<u8> = Vec::new();
    push_str_bytes(&mut out, provider);
    push_str_bytes(&mut out, req.model.as_str());
    match &req.system {
        Some(s) => push_str_bytes(&mut out, s.as_str()),
        None => (),
    }
    let ghost head = out@;
    let mut i: usize = 0;
    proof {
        assert(messages_key_bytes(req.messages@.take(0)) =~= Seq::<u8>::empty());
        assert(out@ =~= head + messages_key_bytes(req.messages@.take(0)));
    }
    while i < req.messages.len()
        invariant
            i <= req.messages@.len(),
            out@ == head + messages_key_bytes(req.messages@.take(i as int)),
        decreases req.messages@.len() - i,
    {
        let m = &req.messages[i];
        push_str_bytes(&mut out, role_name(m.role));
        push_str_bytes(&mut out, m.content.as_str());
        proof {
            assert(req.messages@.take(i + 1).drop_last() =~= req.messages@.take(i as int));
            assert(req.messages@.take(i + 1).last() == req.messages@[i as int]);
        }
        i = i + 1;
    }
    proof {
        assert(req.messages@.take(req.messages@.len() as int) =~= req.messages@);
    }
    match req.temperature_bits {
        Some(t) => push_u32_le(&mut out, t),
        None => (),
    }
    match req.max_tokens {
        Some(mt) => push_u32_le(&mut out, mt),
        None => (),
    }
    proof {
        assert(out@ =~= canonical_request_bytes(
            provider@,
            req.model@,
            match req.system {
                Some(s) => Some(s@),
                None => None,
            },
            req.messages@,
            req.temperature_bits,
            req.max_tokens,
        ));
    }
    out
}

/// Derives the cache key of a request: the BLAKE3 digest, in hexadecimal, of
/// the canonical byte string. Equal request tuples always yield equal keys.
pub fn cache_key(provider: &str, req: &ChatRequest) -> (r: String)
    ensures
        r@ == blake3_hex(
            canonical_request_bytes(
                provider@,
                req.model@,
                match req.system {
                    Some(s) => Some(s@),
                    None => None,
                },
                req.messages@,
                req.temperature_bits,
                req.max_tokens,
            ),
        ),
{
    let bytes = canonical_bytes(provider, req);
    hash_bytes(bytes.as_slice())
}

/// Changing the temperature changes the canonical byte string (leaving the
/// digest inputs distinct): with every other field equal, different
/// temperature fields give different canonical bytes.
pub proof fn lemma_temperature_changes_bytes(
    provider: Seq<char>,
    model: Seq<char>,
    system: Option<Seq<char>>,
    messages: Seq<ChatMessage>,
    t1: Option<u32>,
    t2: Option<u32>,
    max_tokens: Option<u32>,
)
    requires
        t1 != t2,
    ensures
        canonical_request_bytes(provider, model, system, messages, t1, max_tokens)
            != canonical_request_bytes(provider, model, system, messages, t2, max_tokens),
{
    let b1 = canonical_request_bytes(provider, model, system, messages, t1, max_tokens);
    let b2 = canonical_request_bytes(provider, model, system, messages, t2, max_tokens);
    let head = encode_utf8(provider) + encode_utf8(model) + (match system {
        Some(s) => encode_utf8(s),
        None => Seq::<u8>::empty(),
    }) + messages_key_bytes(messages);
    let tail = match max_tokens {
        Some(m) => u32_le_bytes(m),
        None => Seq::<u8>::empty(),
    };
    match (t1, t2) {
        (Some(a), Some(b)) => {
            if b1 == b2 {
                assert(b1.subrange(head.len() as int, head.len() as int + 4) =~= u32_le_bytes(a));
                assert(b2.subrange(head.len() as int, head.len() as int + 4) =~= u32_le_bytes(b));
                lemma_u32_le_bytes_injective(a, b);
            }
        },
        (Some(a), None) => {
            assert(b1.len() == head.len() + 4 + tail.len());
            assert(b2.len() == head.len() + tail.len());
        },
        (None, Some(b)) => {
            assert(b1.len() == head.len() + tail.len());
            assert(b2.len() == head.len() + 4 + tail.len());
        },
        (None, None) => {},
    }
}

/// Changing the output-token limit changes the canonical byte string: with
/// every other field equal, different limit fields give different canonical
/// bytes.
pub proof fn lemma_max_tokens_changes_bytes(
    provider: Seq<char>,
    model: Seq<char>,
    system: Option<Seq<char>>,
    messages: Seq<ChatMessage>,
    temperature_bits: Option<u32>,
    m1: Option<u32>,
    m2: Option<u32>,
)
    requires
        m1 != m2,
    ensures
        canonical_request_bytes(provider, model, system, messages, temperature_bits, m1)
            != canonical_request_bytes(provider, model, system, messages, temperature_bits, m2),
{
    let b1 = canonical_request_bytes(provider, model, system, messages, temperature_bits, m1);
    let b2 = canonical_request_bytes(provider, model, system, messages, temperature_bits, m2);
    let head = encode_utf8(provider) + encode_utf8(model) + (match system {
        Some(s) => encode_utf8(s),
        None => Seq::<u8>::empty(),
    }) + messages_key_bytes(messages) + (match temperature_bits {
        Some(t) => u32_le_bytes(t),
        None => Seq::<u8>::empty(),
    });
    match (m1, m2) {
        (Some(a), Some(b)) => {
            if b1 == b2 {
                assert(b1.subrange(head.len() as int, head.len() as int + 4) =~= u32_le_bytes(a));
                assert(b2.subrange(head.len() as int, head.len() as int + 4) =~= u32_le_bytes(b));
                lemma_u32_le_bytes_injective(a, b);
            }
        },
        (Some(a), None) => {
            assert(b1.len() == head.len() + 4);
            assert(b2.len() == head.len());
        },
        (None, Some(b)) => {
            assert(b1.len() == head.len());
            assert(b2.len() == head.len() + 4);
        },
        (None, None) => {},
    }
}

/// One stored cache value.
#[derive(Debug)]
pub struct CacheEntry<V> {
    pub value: V,
}

/// A flat key/value store: at most one live value per key, a later `put`
/// overwriting an earlier one. Viewed as a map from key text to value text.
#[derive(Debug)]
pub struct CacheStore {
    entries: Vec<(String, CacheEntry<String>)>,
}

/// The map an entry list denotes: later entries win.
pub open spec fn entries_map(s: Seq<(String, CacheEntry<String>)>) -> Map<Seq<char>, Seq<char>>
    decreases s.len(),
{
    if s.len() == 0 {
        Map::empty()
    } else {
        entries_map(s.drop_last()).insert(s.last().0@, s.last().1.value@)
    }
}

impl View for CacheStore {
    type V = Map<Seq<char>, Seq<char>>;

    closed spec fn view(&self) -> Map<Seq<char>, Seq<char>> {
        entries_map(self.entries@)
    }
}

proof fn lemma_entries_map_at(s: Seq<(String, CacheEntry<String>)>, key: Seq<char>, j: int)
    requires
        0 <= j < s.len(),
        s[j].0@ == key,
        forall|l: int| j < l < s.len() ==> s[l].0@ != key,
    ensures
        entries_map(s).contains_key(key),
        entries_map(s)[key] == s[j].1.value@,
    decreases s.len(),
{
    if j == s.len() - 1 {
    } else {
        lemma_entries_map_at(s.drop_last(), key, j);
    }
}

proof fn lemma_entries_map_absent(s: Seq<(String, CacheEntry<String>)>, key: Seq<char>)
    requires
        forall|l: int| 0 <= l < s.len() ==> s[l].0@ != key,
    ensures
        !entries_map(s).contains_key(key),
    decreases s.len(),
{
    if s.len() > 0 {
        lemma_entries_map_absent(s.drop_last(), key);
    }
}

impl CacheStore {
    /// An empty store.
    pub fn new() -> (r: CacheStore)
        ensures
            r@ == Map::<Seq<char>, Seq<char>>::empty(),
    {
        CacheStore { entries: Vec::new() }
    }

    /// Looks a key up: the value most recently stored under it, if any.
    pub fn get(&self, key: &str) -> (r: Option<String>)
        ensures
            match r {
                Some(v) => self@.contains_key(key@) && v@ == self@[key@],
                None => !self@.contains_key(key@),
            },
    {
        let n = self.entries.len();
        let mut i: usize = n;
        while i > 0
            invariant
                i <= n,
                n == self.entries@.len(),
                forall|l: int| i <= l < n ==> self.entries@[l].0@ != key@,
            decreases i,
        {
            i = i - 1;
            if crate::strutil::str_eq(self.entries[i].0.as_str(), key) {
                proof {
                    lemma_entries_map_at(self.entries@, key@, i as int);
                }
                return Some(self.entries[i].1.value.clone());
            }
        }
        proof {
            lemma_entries_map_absent(self.entries@, key@);
        }
        None
    }

    /// Stores a value under a key, replacing any earlier value for that key.
    pub fn put(&mut self, key: String, value: String)
        ensures
            final(self)@ == old(self)@.insert(key@, value@),
    {
        let ghost before = self.entries@;
        self.entries.push((key, CacheEntry { value }));
        proof {
            assert(self.entries@.drop_last() =~= before);
        }
    }
}

} // verus!
