//! Decrypting the cookie values of browsers of the Chromium family on
//! Linux: AES-128 in CBC mode under a key derived from a fixed password,
//! with GCM as the last try.

use vstd::prelude::*;
use vstd::utf8::{decode_utf8, valid_utf8};

use aes_gcm::aead::{Aead, KeyInit};
use aes_gcm::aes::cipher::{Block, BlockCipherDecrypt};

use crate::text::{concat3, opt_text};

verus! {

/// The name under which the key that PBKDF2 over HMAC-SHA1 derives is
/// known: of a password, a salt, a number of rounds and a length.
pub uninterp spec fn pbkdf2_sha1(
    password: Seq<u8>,
    salt: Seq<u8>,
    rounds: u32,
    len: nat,
) -> Seq<u8>;

/// `pbkdf2::pbkdf2_hmac` with SHA-1, for a key of 16 bytes: the same
/// password, salt and rounds always give the same key.
#[verifier::external_body]
fn pbkdf2_hmac_sha1(password: &[u8], salt: &[u8], rounds: u32) -> (r: Vec<u8>)
    ensures
        r@ == pbkdf2_sha1(password@, salt@, rounds, 16),
        r@.len() == 16,
{
    let mut key = [0u8; 16];
    pbkdf2::pbkdf2_hmac::<sha1::Sha1>(password, salt, rounds, &mut key);
    key.to_vec()
}

/// The name under which the decryption of one AES-128 block is known: of
/// a key and a block, 16 bytes each.
pub uninterp spec fn aes128_block(key: Seq<u8>, block: Seq<u8>) -> Seq<u8>;

/// `Aes128::new_from_slice` and `decrypt_block`: a key of 16 bytes is
/// always accepted, and the block keeps its 16 bytes.
#[verifier::external_body]
fn aes128_decrypt_block(key: &[u8], block: &[u8]) -> (r: Vec<u8>)
    requires
        key@.len() == 16,
        block@.len() == 16,
    ensures
        r@ == aes128_block(key@, block@),
        r@.len() == 16,
{
    let cipher = aes_gcm::aes::Aes128::new_from_slice(key).expect("sixteen bytes of key");
    let mut out = Block::<aes_gcm::aes::Aes128>::default();
    out.copy_from_slice(block);
    cipher.decrypt_block(&mut out);
    out.to_vec()
}

/// The name under which the opening of an AES-128-GCM message is known:
/// of a key, a nonce and a message with its tag at the end. `None` where
/// the tag does not fit.
pub uninterp spec fn aes128_gcm(key: Seq<u8>, nonce: Seq<u8>, data: Seq<u8>) -> Option<Seq<u8>>;

/// The bytes held by an optional vector.
pub open spec fn opt_bytes(o: Option<Vec<u8>>) -> Option<Seq<u8>> {
    match o {
        Some(v) => Some(v@),
        None => None,
    }
}

/// `Aes128Gcm::decrypt` without associated data, under a key of 16 bytes
/// and a nonce of 12, both of which are always accepted.
#[verifier::external_body]
fn aes128_gcm_decrypt(key: &[u8], nonce: &[u8], data: &[u8]) -> (r: Option<Vec<u8>>)
    requires
        key@.len() == 16,
        nonce@.len() == 12,
    ensures
        opt_bytes(r) == aes128_gcm(key@, nonce@, data@),
{
    let cipher = aes_gcm::Aes128Gcm::new_from_slice(key).ok()?;
    let nonce = aes_gcm::Nonce::try_from(nonce).ok()?;
    cipher.decrypt(&nonce, data).ok()
}

/// `std::str::from_utf8`: the text that the bytes encode, or `None` where
/// they are not UTF-8.
#[verifier::external_body]
pub(crate) fn utf8_text(bytes: &[u8]) -> (r: Option<String>)
    ensures
        r is Some <==> valid_utf8(bytes@),
        r matches Some(s) ==> s@ == decode_utf8(bytes@),
{
    std::str::from_utf8(bytes).ok().map(|s| s.to_owned())
}

/// The name under which the lossy reading of bytes as text is known.
pub uninterp spec fn utf8_lossy(bytes: Seq<u8>) -> Seq<char>;

/// `String::from_utf8_lossy`: the same bytes always give the same text,
/// and bytes that are UTF-8 give the text that they encode.
#[verifier::external_body]
pub(crate) fn lossy_text(bytes: &[u8]) -> (r: String)
    ensures
        r@ == utf8_lossy(bytes@),
        valid_utf8(bytes@) ==> r@ == decode_utf8(bytes@),
{
    String::from_utf8_lossy(bytes).into_owned()
}

/// The password of the key: `peanuts`.
pub open spec fn password() -> Seq<u8> {
    seq![0x70u8, 0x65, 0x61, 0x6e, 0x75, 0x74, 0x73]
}

/// The salt of the key: `saltysalt`.
pub open spec fn salt() -> Seq<u8> {
    seq![0x73u8, 0x61, 0x6c, 0x74, 0x79, 0x73, 0x61, 0x6c, 0x74]
}

/// The chain's start: 16 spaces. It is not stored with the value.
pub open spec fn start_link() -> Seq<u8> {
    Seq::new(16, |i: int| 0x20u8)
}

/// From this version of the schema on, a value is preceded by a hash of
/// its domain.
pub const HASH_SINCE: i64 = 24;

/// The length of that hash.
pub const HASH_LEN: usize = 32;

pub open spec fn key_of(password: Seq<u8>) -> Seq<u8> {
    pbkdf2_sha1(password, salt(), 1, 16)
}

/// Two blocks combined byte by byte with exclusive or.
pub open spec fn xored(a: Seq<u8>, b: Seq<u8>) -> Seq<u8> {
    Seq::new(a.len(), |i: int| a[i] ^ b[i])
}

/// CBC decryption of whole blocks: each decrypted block is combined with
/// the encrypted block before it, the first with `link`.
pub open spec fn cbc_plain(key: Seq<u8>, link: Seq<u8>, data: Seq<u8>) -> Seq<u8>
    decreases data.len(),
{
    if data.len() < 16 {
        Seq::empty()
    } else {
        let block = data.subrange(0, 16);
        xored(aes128_block(key, block), link) + cbc_plain(
            key,
            block,
            data.subrange(16, data.len() as int),
        )
    }
}

/// The padding that fills a message of `len` bytes up to whole blocks: as
/// many bytes as are missing, each holding their number.
pub open spec fn padding(len: nat) -> Seq<u8> {
    let n = (16 - len % 16) as nat;
    Seq::new(n, |i: int| n as u8)
}

/// Whether `data` ends in `pad` bytes that each hold `pad`.
pub open spec fn padded_by(data: Seq<u8>, pad: int) -> bool {
    &&& 1 <= pad <= 16
    &&& pad <= data.len()
    &&& forall|i: int| data.len() - pad <= i < data.len() ==> #[trigger] data[i] == pad
}

/// The message without its padding; `None` where the padding is broken.
pub open spec fn unpadded(data: Seq<u8>) -> Option<Seq<u8>> {
    if data.len() > 0 && padded_by(data, data.last() as int) {
        Some(data.subrange(0, data.len() - data.last()))
    } else {
        None
    }
}

/// The text of a decrypted value: without the domain's hash, valid UTF-8,
/// not empty.
pub open spec fn finished(plain: Seq<u8>, meta_version: i64) -> Option<Seq<char>> {
    let body = if meta_version >= HASH_SINCE {
        if plain.len() >= HASH_LEN {
            Some(plain.subrange(HASH_LEN as int, plain.len() as int))
        } else {
            None
        }
    } else {
        Some(plain)
    };
    match body {
        Some(b) => if valid_utf8(b) && decode_utf8(b).len() > 0 {
            Some(decode_utf8(b))
        } else {
            None
        },
        None => None,
    }
}

pub open spec fn cbc_attempt(password: Seq<u8>, body: Seq<u8>, meta_version: i64) -> Option<
    Seq<char>,
> {
    if body.len() == 0 || body.len() % 16 != 0 {
        None
    } else {
        match unpadded(cbc_plain(key_of(password), start_link(), body)) {
            Some(plain) => finished(plain, meta_version),
            None => None,
        }
    }
}

pub open spec fn gcm_attempt(password: Seq<u8>, body: Seq<u8>, meta_version: i64) -> Option<
    Seq<char>,
> {
    if body.len() < 28 {
        None
    } else {
        match aes128_gcm(
            key_of(password),
            body.subrange(0, 12),
            body.subrange(12, body.len() as int),
        ) {
            Some(plain) => finished(plain, meta_version),
            None => None,
        }
    }
}

/// What a stored value reads as, or why it does not.
pub open spec fn decrypted(blob: Seq<u8>, meta_version: i64) -> Result<Seq<char>, Seq<char>> {
    if blob.len() < 3 {
        Err("значение короче заголовка версии"@)
    } else {
        let version = blob.subrange(0, 3);
        let body = blob.subrange(3, blob.len() as int);
        if version == seq![0x76u8, 0x31, 0x30] {
            first_of(
                cbc_attempt(password(), body, meta_version),
                cbc_attempt(Seq::empty(), body, meta_version),
                gcm_attempt(password(), body, meta_version),
            )
        } else if version == seq![0x76u8, 0x31, 0x31] {
            Err(
                "значение зашифровано ключом keyring (v11); укажите профиль Firefox или экспортируйте cookies в файл"@,
            )
        } else {
            Err("неизвестный формат значения (префикс «"@ + utf8_lossy(version) + "»)"@)
        }
    }
}

/// The first attempt that gave a text.
pub open spec fn first_of(
    a: Option<Seq<char>>,
    b: Option<Seq<char>>,
    c: Option<Seq<char>>,
) -> Result<Seq<char>, Seq<char>> {
    match (a, b, c) {
        (Some(s), _, _) => Ok(s),
        (None, Some(s), _) => Ok(s),
        (None, None, Some(s)) => Ok(s),
        (None, None, None) => Err(
            "значение v10 не расшифровалось: ни один из известных ключей не подошёл"@,
        ),
    }
}

/// A text or a reason, by view.
pub open spec fn text_result(r: Result<String, String>) -> Result<Seq<char>, Seq<char>> {
    match r {
        Ok(s) => Ok(s@),
        Err(e) => Err(e@),
    }
}

fn derive_key(password: &Vec<u8>) -> (r: Vec<u8>)
    ensures
        r@ == key_of(password@),
        r@.len() == 16,
{
    let salt: Vec<u8> = vec![0x73, 0x61, 0x6c, 0x74, 0x79, 0x73, 0x61, 0x6c, 0x74];
    assert(salt@ =~= self::salt());
    pbkdf2_hmac_sha1(password.as_slice(), salt.as_slice(), 1)
}

fn copy_range(data: &Vec<u8>, from: usize, to: usize) -> (r: Vec<u8>)
    requires
        from <= to <= data@.len(),
    ensures
        r@ == data@.subrange(from as int, to as int),
{
    let mut out: Vec<u8> = Vec::new();
    let mut i: usize = from;
    while i < to
        invariant
            from <= i <= to <= data@.len(),
            out@ == data@.subrange(from as int, i as int),
        decreases to - i,
    {
        out.push(data[i]);
        i += 1;
        assert(out@ =~= data@.subrange(from as int, i as int));
    }
    out
}

/// AES-128-CBC over whole blocks; `None` for an empty message, one that is
/// not made of whole blocks, or a key that is not one of AES-128.
pub fn cbc_decrypt(key: &Vec<u8>, iv: &Vec<u8>, data: &Vec<u8>) -> (r: Option<Vec<u8>>)
    requires
        iv@.len() == 16,
    ensures
        r is Some <==> data@.len() > 0 && data@.len() % 16 == 0 && key@.len() == 16,
        r matches Some(plain) ==> plain@ == cbc_plain(key@, iv@, data@),
{
    if data.len() == 0 || data.len() % 16 != 0 || key.len() != 16 {
        return None;
    }
    let mut out: Vec<u8> = Vec::new();
    let mut link: Vec<u8> = copy_range(iv, 0, 16);
    let mut at: usize = 0;
    assert(iv@.subrange(0, 16) =~= iv@);
    assert(data@.subrange(0, data@.len() as int) =~= data@);
    assert(out@ + cbc_plain(key@, link@, data@) =~= cbc_plain(key@, iv@, data@));
    while at < data.len()
        invariant
            key@.len() == 16,
            link@.len() == 16,
            at <= data@.len(),
            at % 16 == 0,
            data@.len() % 16 == 0,
            out@ + cbc_plain(key@, link@, data@.subrange(at as int, data@.len() as int))
                == cbc_plain(key@, iv@, data@),
        decreases data@.len() - at,
    {
        let ghost rest = data@.subrange(at as int, data@.len() as int);
        let ghost before = out@;
        let chunk: Vec<u8> = copy_range(data, at, at + 16);
        let block: Vec<u8> = aes128_decrypt_block(key.as_slice(), chunk.as_slice());
        let ghost combined = xored(block@, link@);
        let mut k: usize = 0;
        while k < 16
            invariant
                k <= 16,
                block@.len() == 16,
                link@.len() == 16,
                combined == xored(block@, link@),
                out@ == before + combined.subrange(0, k as int),
            decreases 16 - k,
        {
            out.push(block[k] ^ link[k]);
            k += 1;
            assert(out@ =~= before + combined.subrange(0, k as int));
        }
        assert(combined.subrange(0, 16) =~= combined);
        assert(rest.subrange(0, 16) =~= chunk@);
        assert(rest.subrange(16, rest.len() as int) =~= data@.subrange(
            at + 16,
            data@.len() as int,
        ));
        let ghost tail = cbc_plain(key@, chunk@, data@.subrange(at + 16, data@.len() as int));
        assert((before + combined) + tail =~= before + (combined + tail));
        link = chunk;
        at += 16;
    }
    assert(data@.subrange(at as int, data@.len() as int).len() == 0);
    assert(out@ + Seq::<u8>::empty() =~= out@);
    Some(out)
}

/// Removes the padding of a decrypted message.
pub fn unpad_pkcs7(data: Vec<u8>) -> (r: Option<Vec<u8>>)
    ensures
        opt_bytes(r) == unpadded(data@),
{
    let len: usize = data.len();
    if len == 0 {
        return None;
    }
    let pad: usize = data[len - 1] as usize;
    if pad == 0 || pad > 16 || pad > len {
        return None;
    }
    let mut i: usize = len - pad;
    while i < len
        invariant
            len == data@.len(),
            1 <= pad <= 16,
            pad <= len,
            pad == data@.last(),
            len - pad <= i <= len,
            forall|k: int| len - pad <= k < i ==> #[trigger] data@[k] == pad,
        decreases len - i,
    {
        if data[i] as usize != pad {
            assert(data@[i as int] != pad);
            return None;
        }
        i += 1;
    }
    let mut data = data;
    data.truncate(len - pad);
    Some(data)
}

/// Drops the domain's hash and checks that the rest is a text.
pub fn finish(plain: &Vec<u8>, meta_version: i64) -> (r: Option<String>)
    ensures
        opt_text(r) == finished(plain@, meta_version),
{
    let from: usize = if meta_version >= HASH_SINCE {
        HASH_LEN
    } else {
        0
    };
    if plain.len() < from {
        return None;
    }
    let body: Vec<u8> = copy_range(plain, from, plain.len());
    assert(from == 0 ==> body@ =~= plain@);
    match utf8_text(body.as_slice()) {
        Some(text) => if text.as_str().is_empty() {
            None
        } else {
            Some(text)
        },
        None => None,
    }
}

fn cbc_try(password: &Vec<u8>, body: &Vec<u8>, meta_version: i64) -> (r: Option<String>)
    ensures
        opt_text(r) == cbc_attempt(password@, body@, meta_version),
{
    let key: Vec<u8> = derive_key(password);
    let mut iv: Vec<u8> = Vec::new();
    let mut i: usize = 0;
    while i < 16
        invariant
            i <= 16,
            iv@ == start_link().subrange(0, i as int),
        decreases 16 - i,
    {
        iv.push(0x20);
        i += 1;
        assert(iv@ =~= start_link().subrange(0, i as int));
    }
    assert(iv@ =~= start_link());
    match cbc_decrypt(&key, &iv, body) {
        Some(padded) => match unpad_pkcs7(padded) {
            Some(plain) => finish(&plain, meta_version),
            None => None,
        },
        None => None,
    }
}

fn gcm_try(password: &Vec<u8>, body: &Vec<u8>, meta_version: i64) -> (r: Option<String>)
    ensures
        opt_text(r) == gcm_attempt(password@, body@, meta_version),
{
    if body.len() < 28 {
        return None;
    }
    let key: Vec<u8> = derive_key(password);
    let nonce: Vec<u8> = copy_range(body, 0, 12);
    let data: Vec<u8> = copy_range(body, 12, body.len());
    match aes128_gcm_decrypt(key.as_slice(), nonce.as_slice(), data.as_slice()) {
        Some(plain) => finish(&plain, meta_version),
        None => None,
    }
}

/// Decrypts a stored value. The error is the reason: whether to skip the
/// value or to fail is the caller's choice.
pub fn decrypt_chromium(blob: &Vec<u8>, meta_version: i64) -> (r: Result<String, String>)
    ensures
        text_result(r) == decrypted(blob@, meta_version),
{
    if blob.len() < 3 {
        return Err("значение короче заголовка версии".to_owned());
    }
    let version: Vec<u8> = copy_range(blob, 0, 3);
    let body: Vec<u8> = copy_range(blob, 3, blob.len());
    if version[0] == 0x76 && version[1] == 0x31 && version[2] == 0x30 {
        assert(version@ =~= seq![0x76u8, 0x31, 0x30]);
        let peanuts: Vec<u8> = vec![0x70, 0x65, 0x61, 0x6e, 0x75, 0x74, 0x73];
        assert(peanuts@ =~= password());
        let empty: Vec<u8> = Vec::new();
        if let Some(text) = cbc_try(&peanuts, &body, meta_version) {
            return Ok(text);
        }
        if let Some(text) = cbc_try(&empty, &body, meta_version) {
            return Ok(text);
        }
        if let Some(text) = gcm_try(&peanuts, &body, meta_version) {
            return Ok(text);
        }
        Err(
            "значение v10 не расшифровалось: ни один из известных ключей не подошёл".to_owned(),
        )
    } else if version[0] == 0x76 && version[1] == 0x31 && version[2] == 0x31 {
        assert(version@ =~= seq![0x76u8, 0x31, 0x31]);
        Err(
            "значение зашифровано ключом keyring (v11); укажите профиль Firefox или экспортируйте cookies в файл".to_owned(),
        )
    } else {
        proof {
            if version@ == seq![0x76u8, 0x31, 0x30] || version@ == seq![0x76u8, 0x31, 0x31] {
                assert(version@[0] == 0x76 && version@[1] == 0x31);
            }
        }
        let prefix = lossy_text(version.as_slice());
        Err(concat3("неизвестный формат значения (префикс «", prefix.as_str(), "»)"))
    }
}

/// Removing the padding gives back the message that was padded.
pub proof fn lemma_unpadding_inverts_padding(message: Seq<u8>)
    ensures
        unpadded(message + padding(message.len())) == Some(message),
        (message + padding(message.len())).len() % 16 == 0,
{
    let pad = padding(message.len());
    let data = message + pad;
    assert(data.last() == pad.len());
    assert(padded_by(data, pad.len() as int));
    assert(data.subrange(0, data.len() - pad.len()) =~= message);
}

/// Whether the cipher keeps the length of every block under a key.
pub open spec fn whole_blocks(key: Seq<u8>) -> bool {
    forall|block: Seq<u8>|
        block.len() == 16 ==> (#[trigger] aes128_block(key, block)).len() == 16
}

/// Each byte of a decrypted message is the cipher's byte combined with the
/// encrypted byte a block before it, in the first block with the chain's
/// start. Nothing is lost.
pub proof fn lemma_blocks_are_chained(key: Seq<u8>, link: Seq<u8>, data: Seq<u8>, i: int)
    requires
        data.len() % 16 == 0,
        link.len() == 16,
    ensures
        whole_blocks(key) ==> cbc_plain(key, link, data).len() == data.len(),
        whole_blocks(key) && 0 <= i < data.len() ==> cbc_plain(key, link, data)[i] == aes128_block(
            key,
            data.subrange(i - i % 16, i - i % 16 + 16),
        )[i % 16] ^ (if i < 16 {
            link[i]
        } else {
            data[i - 16]
        }),
    decreases data.len(),
{
    if data.len() >= 16 {
        let block = data.subrange(0, 16);
        let rest = data.subrange(16, data.len() as int);
        lemma_blocks_are_chained(key, block, rest, i - 16);
        if whole_blocks(key) {
            assert(aes128_block(key, block).len() == 16);
        }
        if whole_blocks(key) && 0 <= i < data.len() {
            if i < 16 {
                assert(i % 16 == i);
                assert(data.subrange(0, 16) =~= block);
            } else {
                assert((i - 16) % 16 == i % 16);
                let at = i - i % 16;
                assert(rest.subrange(at - 16, at) =~= data.subrange(at, at + 16));
                if i < 32 {
                    assert(block[i - 16] == data[i - 16]);
                } else {
                    assert(rest[i - 32] == data[i - 16]);
                }
            }
        }
    }
}

/// A value that the browser stored is read again: behind the mark `v10`
/// stand whole blocks which, under the key that is derived from `peanuts`
/// and `saltysalt` in one round and with sixteen spaces as the start, hold
/// the domain's hash, the text and its padding. Schemas before the
/// twenty-fourth have no hash.
pub proof fn lemma_stored_values_are_read(
    body: Seq<u8>,
    hash: Seq<u8>,
    bytes: Seq<u8>,
    meta_version: i64,
)
    requires
        body.len() > 0,
        body.len() % 16 == 0,
        valid_utf8(bytes),
        decode_utf8(bytes).len() > 0,
        hash.len() == if meta_version >= 24 {
            32int
        } else {
            0
        },
    ensures
        stored_as(body, hash + bytes) ==> decrypted(seq![0x76u8, 0x31, 0x30] + body, meta_version) == Ok::<Seq<char>, Seq<char>>(
            decode_utf8(bytes),
        ),
{
    let blob = seq![0x76u8, 0x31, 0x30] + body;
    assert(blob.subrange(0, 3) =~= seq![0x76u8, 0x31, 0x30]);
    assert(blob.subrange(3, blob.len() as int) =~= body);
    lemma_unpadding_inverts_padding(hash + bytes);
    assert(start_link() =~= Seq::new(16, |i: int| 0x20u8));
    let plain = hash + bytes;
    if meta_version >= 24 {
        assert(plain.subrange(32, plain.len() as int) =~= bytes);
    } else {
        assert(plain =~= bytes);
    }
    assert(finished(plain, meta_version) == Some(decode_utf8(bytes)));
}

/// Whether whole blocks hold a message and its padding under the browser's
/// fixed key.
pub open spec fn stored_as(body: Seq<u8>, message: Seq<u8>) -> bool {
    let key = pbkdf2_sha1(
        seq![0x70u8, 0x65, 0x61, 0x6e, 0x75, 0x74, 0x73],
        seq![0x73u8, 0x61, 0x6c, 0x74, 0x79, 0x73, 0x61, 0x6c, 0x74],
        1,
        16,
    );
    cbc_plain(key, Seq::new(16, |i: int| 0x20u8), body) == message + padding(message.len())
}

/// A value under a key that is out of reach, one of an unknown form and one
/// that is too short are not read, whatever they hold. A message whose
/// padding is broken is none.
pub proof fn lemma_unreadable_values_are_told(blob: Seq<u8>, data: Seq<u8>, meta_version: i64)
    ensures
        blob.len() < 3 ==> decrypted(blob, meta_version) is Err,
        blob.len() >= 3 && blob.subrange(0, 3) != seq![0x76u8, 0x31, 0x30] ==> decrypted(
            blob,
            meta_version,
        ) is Err,
        data.len() == 0 ==> unpadded(data) is None,
        data.len() > 0 && (data.last() == 0 || data.last() > 16) ==> unpadded(data) is None,
        unpadded(data) matches Some(message) ==> {
            &&& message.len() + data.last() == data.len()
            &&& message == data.subrange(0, message.len() as int)
            &&& forall|k: int| message.len() <= k < data.len() ==> #[trigger] data[k] == data.last()
        },
        decrypted(blob, meta_version) matches Ok(text) ==> text.len() > 0,
{
}

/// Of the ways to read a value the first that gives a text counts: the
/// known password, an empty one, and the newer mode last.
pub proof fn lemma_first_reading_counts(body: Seq<u8>, meta_version: i64)
    ensures
        ({
            let blob = seq![0x76u8, 0x31, 0x30] + body;
            let known = cbc_attempt(
                seq![0x70u8, 0x65, 0x61, 0x6e, 0x75, 0x74, 0x73],
                body,
                meta_version,
            );
            let empty = cbc_attempt(Seq::empty(), body, meta_version);
            let newer = gcm_attempt(
                seq![0x70u8, 0x65, 0x61, 0x6e, 0x75, 0x74, 0x73],
                body,
                meta_version,
            );
            &&& known matches Some(text) ==> decrypted(blob, meta_version) == Ok::<
                Seq<char>,
                Seq<char>,
            >(text)
            &&& known is None && empty is Some ==> decrypted(blob, meta_version) == Ok::<
                Seq<char>,
                Seq<char>,
            >(empty->0)
            &&& known is None && empty is None && newer is Some ==> decrypted(blob, meta_version)
                == Ok::<Seq<char>, Seq<char>>(newer->0)
            &&& known is None && empty is None && newer is None ==> decrypted(blob, meta_version)
                is Err
        }),
{
    let blob = seq![0x76u8, 0x31, 0x30] + body;
    assert(blob.subrange(0, 3) =~= seq![0x76u8, 0x31, 0x30]);
    assert(blob.subrange(3, blob.len() as int) =~= body);
}

} // verus!
