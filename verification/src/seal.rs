use aes_gcm::aead::Aead;
use aes_gcm::KeyInit;
use rand::distributions::DistString;
use vstd::prelude::*;
use vstd::string::StringSliceAdditionalSpecFns;
use vstd::utf8::{decode_utf8, encode_utf8, valid_utf8};

verus! {

/// How many key shares the master key was split into, and how many are
/// needed to recover it.
#[derive(Debug, Clone, Copy, PartialEq, Eq, Structural)]
pub struct SealConfig {
    pub threshold: u8,
    pub shares: u8,
}

/// A stored key share and the nonce it was encrypted with.
#[derive(Debug, Clone)]
pub struct KeyShare {
    pub key: Vec<u8>,
    pub nonce: Vec<u8>,
}

/// Why initializing or unsealing failed.
#[derive(Debug, Clone, Copy, PartialEq, Eq, Structural)]
pub enum SealError {
    /// The threshold is zero or larger than the number of shares.
    InvalidInitializeParams,
    /// A key share is not hex, or too short to be a share.
    MalformedKeyShares,
    /// The shares do not recover a master key.
    MasterKeyRecovery,
    /// A stored key share could not be decrypted.
    UndecryptableKeyShare,
    /// A key share could not be encrypted.
    UnencryptableKeyShare,
}

/// Where unsealing stands after the provided key shares were stored.
#[derive(Debug, Clone, Copy, PartialEq, Eq, Structural)]
pub enum UnsealProgress {
    /// More shares are needed.
    InProgress { threshold: u8, key_shares_total: u8, key_shares_provided: usize },
    /// Enough shares were provided to try to recover the master key.
    Ready,
}

/// Checks the parameters of an initialize request.
pub fn check_initialize_params(threshold: u8, shares: u8) -> (r: Result<(), SealError>)
    ensures
        r is Err <==> threshold == 0 || shares < threshold,
        r matches Err(e) ==> e == SealError::InvalidInitializeParams,
{
    if threshold == 0 || shares < threshold {
        Err(SealError::InvalidInitializeParams)
    } else {
        Ok(())
    }
}

/// Progress of unsealing once `provided` distinct shares are stored.
pub fn unseal_progress(config: &SealConfig, provided: usize) -> (r: UnsealProgress)
    ensures
        r == (if config.threshold as int > provided {
            UnsealProgress::InProgress {
                threshold: config.threshold,
                key_shares_total: config.shares,
                key_shares_provided: provided,
            }
        } else {
            UnsealProgress::Ready
        }),
{
    if (config.threshold as usize) > provided {
        UnsealProgress::InProgress {
            threshold: config.threshold,
            key_shares_total: config.shares,
            key_shares_provided: provided,
        }
    } else {
        UnsealProgress::Ready
    }
}

// ---------------------------------------------------------------- hex

/// A hexadecimal digit, either case.
pub open spec fn is_hex_char(c: char) -> bool {
    ('0' <= c && c <= '9') || ('a' <= c && c <= 'f') || ('A' <= c && c <= 'F')
}

/// Value of a hexadecimal digit.
pub open spec fn hex_value(c: char) -> int {
    if '0' <= c && c <= '9' {
        c as int - '0' as int
    } else if 'a' <= c && c <= 'f' {
        c as int - 'a' as int + 10
    } else {
        c as int - 'A' as int + 10
    }
}

/// The bytes a hexadecimal text stands for: pairs of digits, high first.
pub open spec fn hex_decoded(s: Seq<char>) -> Option<Seq<u8>> {
    if s.len() % 2 == 0 && forall|i: int| 0 <= i < s.len() ==> is_hex_char(#[trigger] s[i]) {
        Some(Seq::new((s.len() / 2) as nat, |i: int| (16 * hex_value(s[2 * i]) + hex_value(s[2 * i + 1])) as u8))
    } else {
        None
    }
}

/// Lower-case hexadecimal digit of `v < 16`.
pub open spec fn lower_hex_digit(v: int) -> char {
    if v < 10 {
        (v + '0' as int) as char
    } else {
        (v - 10 + 'a' as int) as char
    }
}

/// Lower-case hexadecimal text of `b`, two digits per byte.
pub open spec fn hex_encoded(b: Seq<u8>) -> Seq<char> {
    Seq::new(
        2 * b.len(),
        |i: int|
            if i % 2 == 0 {
                lower_hex_digit(b[i / 2] as int / 16)
            } else {
                lower_hex_digit(b[i / 2] as int % 16)
            },
    )
}

/// A lower-case hexadecimal digit reads back as its value.
proof fn lemma_lower_hex_digit(v: int)
    requires
        0 <= v < 16,
    ensures
        is_hex_char(lower_hex_digit(v)),
        hex_value(lower_hex_digit(v)) == v,
{
    let c = lower_hex_digit(v);
    if v < 10 {
        assert(c as int == v + '0' as int);
    } else {
        assert(c as int == v - 10 + 'a' as int);
    }
}

/// Hexadecimal text decodes back to the bytes it encodes.
proof fn lemma_hex_round_trip(b: Seq<u8>)
    ensures
        hex_decoded(hex_encoded(b)) == Some(b),
{
    let t = hex_encoded(b);
    assert forall|i: int| 0 <= i < t.len() implies is_hex_char(#[trigger] t[i]) by {
        lemma_lower_hex_digit(b[i / 2] as int / 16);
        lemma_lower_hex_digit(b[i / 2] as int % 16);
    }
    let d = hex_decoded(t)->0;
    assert(d.len() == b.len());
    assert forall|i: int| 0 <= i < b.len() implies d[i] == b[i] by {
        assert((2 * i) / 2 == i);
        assert((2 * i + 1) / 2 == i);
        assert((2 * i) % 2 == 0);
        assert((2 * i + 1) % 2 == 1);
        lemma_lower_hex_digit(b[i] as int / 16);
        lemma_lower_hex_digit(b[i] as int % 16);
        assert(t[2 * i] == lower_hex_digit(b[i] as int / 16));
        assert(t[2 * i + 1] == lower_hex_digit(b[i] as int % 16));
        assert(16 * (b[i] as int / 16) + b[i] as int % 16 == b[i] as int);
    }
    assert(d =~= b);
}

#[verifier::external_type_specification]
#[verifier::external_body]
pub struct ExFromHexError(hex::FromHexError);

/// `hex::decode`: fails on an odd length or a non-hexadecimal character;
/// otherwise each pair of digits (either case) is one byte.
#[verifier::external_body]
fn hex_decode(s: &str) -> (r: Result<Vec<u8>, hex::FromHexError>)
    ensures
        r is Ok <==> hex_decoded(s@) is Some,
        r is Ok ==> r->Ok_0@ == hex_decoded(s@)->0,
{
    hex::decode(s)
}

/// `hex::encode`: two lower-case hexadecimal digits per byte.
#[verifier::external_body]
fn hex_encode(b: &[u8]) -> (r: String)
    ensures
        r@ == hex_encoded(b@),
{
    hex::encode(b)
}

/// `String::from_utf8`: succeeds exactly on valid UTF-8.
#[verifier::external_body]
fn string_from_utf8(b: Vec<u8>) -> (r: Option<String>)
    ensures
        r is Some <==> valid_utf8(b@),
        r matches Some(s) ==> s@ == decode_utf8(b@),
{
    String::from_utf8(b).ok()
}

// ---------------------------------------------------------------- Shamir

/// The secret that Lagrange interpolation at zero recovers from shares given
/// as bytes (the `x` coordinate first, then one `y` per secret byte).
pub uninterp spec fn shamir_secret(shares: Seq<Seq<u8>>) -> Seq<u8>;

/// The distinct `x` coordinates (first bytes) of `shares`.
pub open spec fn share_xs(shares: Seq<Seq<u8>>) -> Set<u8> {
    Set::new(|x: u8| exists|i: int| 0 <= i < shares.len() && #[trigger] shares[i][0] == x)
}

/// `sharks` refuses to recover from these shares: their lengths differ, or
/// fewer distinct `x` coordinates than the threshold (or none) are given.
pub open spec fn shamir_refuses(threshold: u8, shares: Seq<Seq<u8>>) -> bool {
    ||| exists|i: int, j: int|
        0 <= i < shares.len() && 0 <= j < shares.len() && #[trigger] shares[i].len()
            != #[trigger] shares[j].len()
    ||| share_xs(shares).len() == 0
    ||| share_xs(shares).len() < threshold
}

pub open spec fn views(v: Seq<Vec<u8>>) -> Seq<Seq<u8>> {
    v.map_values(|b: Vec<u8>| b@)
}

/// `sharks::Sharks(threshold).recover`, each share read with
/// `Share::try_from` (which accepts any share of at least two bytes).
#[verifier::external_body]
fn shamir_recover(threshold: u8, shares: &Vec<Vec<u8>>) -> (r: Result<Vec<u8>, ()>)
    requires
        forall|i: int| 0 <= i < shares@.len() ==> (#[trigger] shares@[i])@.len() >= 2,
    ensures
        r is Err <==> shamir_refuses(threshold, views(shares@)),
        r is Ok ==> r->Ok_0@ == shamir_secret(views(shares@)),
{
    let mut parsed: Vec<sharks::Share> = Vec::new();
    for s in shares.iter() {
        match sharks::Share::try_from(s.as_slice()) {
            Ok(share) => parsed.push(share),
            Err(_) => return Err(()),
        }
    }
    sharks::Sharks(threshold).recover(parsed.as_slice()).map_err(|_| ())
}

/// `idx` lists distinct positions below `n`.
pub open spec fn distinct_positions(idx: Seq<int>, n: int) -> bool {
    &&& forall|j: int| 0 <= j < idx.len() ==> 0 <= #[trigger] idx[j] < n
    &&& forall|j: int, k: int|
        0 <= j < idx.len() && 0 <= k < idx.len() && j != k ==> #[trigger] idx[j] != #[trigger] idx[k]
}

/// The items of `s` at the positions `idx`, in that order.
pub open spec fn picked<A>(s: Seq<A>, idx: Seq<int>) -> Seq<A> {
    Seq::new(idx.len(), |j: int| s[idx[j]])
}

/// `idx` picks enough shares to recover a secret dealt with `threshold`: at
/// least one, and at least `threshold`.
pub open spec fn enough_shares(idx: Seq<int>, threshold: u8) -> bool {
    idx.len() > 0 && idx.len() >= threshold
}

/// `sharks::Sharks(threshold).dealer(secret)`, taking the first `count`
/// shares as bytes: the `x` coordinate, counting up from one, then one `y`
/// per secret byte. Each byte is the constant term of a polynomial of degree
/// `threshold - 1` (zero when `threshold` is zero) whose other coefficients
/// are random, evaluated at `x`; so interpolating any `threshold` or more
/// distinct shares (and at least one) gives the secret back.
#[verifier::external_body]
fn shamir_deal(threshold: u8, secret: &[u8], count: u8) -> (r: Vec<Vec<u8>>)
    ensures
        r@.len() == count,
        forall|i: int|
            0 <= i < count ==> {
                &&& (#[trigger] r@[i])@.len() == secret@.len() + 1
                &&& r@[i]@[0] == i + 1
            },
        forall|idx: Seq<int>|
            distinct_positions(idx, count as int) && enough_shares(idx, threshold)
                ==> #[trigger] shamir_secret(picked(views(r@), idx)) == secret@,
{
    sharks::Sharks(threshold).dealer(secret).take(count as usize).map(|s| Vec::from(&s)).collect()
}

/// The master key that the decoded key shares recover.
pub open spec fn recovered_master_key(shares: Seq<Seq<u8>>) -> Seq<char> {
    decode_utf8(shamir_secret(shares))
}

/// Every share is hexadecimal text of at least two bytes (an `x` coordinate
/// and one `y`).
pub open spec fn well_formed_shares(texts: Seq<Seq<char>>) -> bool {
    forall|i: int|
        0 <= i < texts.len() ==> hex_decoded(#[trigger] texts[i]) is Some && hex_decoded(
            texts[i],
        )->0.len() >= 2
}

/// The bytes of each hexadecimal share.
pub open spec fn decoded_shares(texts: Seq<Seq<char>>) -> Seq<Seq<u8>> {
    texts.map_values(|t: Seq<char>| hex_decoded(t)->0)
}

/// The master key that the hexadecimal key shares `texts` recover with
/// `threshold`, or why they do not.
pub open spec fn master_key_from(texts: Seq<Seq<char>>, threshold: u8) -> Result<Seq<char>, SealError> {
    if !well_formed_shares(texts) {
        Err(SealError::MalformedKeyShares)
    } else if shamir_refuses(threshold, decoded_shares(texts)) || !valid_utf8(
        shamir_secret(decoded_shares(texts)),
    ) {
        Err(SealError::MasterKeyRecovery)
    } else {
        Ok(recovered_master_key(decoded_shares(texts)))
    }
}

/// The texts of `v`.
pub open spec fn texts(v: Seq<String>) -> Seq<Seq<char>> {
    v.map_values(|s: String| s@)
}

/// Recovers the master key from hexadecimal key shares.
#[verifier::rlimit(30)]
pub fn construct_master_key(key_shares: &Vec<String>, threshold: u8) -> (r: Result<String, SealError>)
    ensures
        match r {
            Ok(k) => master_key_from(texts(key_shares@), threshold) == Ok::<Seq<char>, SealError>(k@),
            Err(e) => master_key_from(texts(key_shares@), threshold) == Err::<Seq<char>, SealError>(e),
        },
{
    let ghost ts = texts(key_shares@);
    let mut decoded: Vec<Vec<u8>> = Vec::new();
    let mut i: usize = 0;
    while i < key_shares.len()
        invariant
            i <= key_shares@.len(),
            ts == texts(key_shares@),
            decoded@.len() == i,
            forall|j: int| 0 <= j < i ==> hex_decoded(key_shares@[j]@) is Some,
            forall|j: int| 0 <= j < i ==> (#[trigger] decoded@[j])@ == hex_decoded(key_shares@[j]@)->0,
            forall|j: int| 0 <= j < i ==> (#[trigger] decoded@[j])@.len() >= 2,
        decreases key_shares@.len() - i,
    {
        match hex_decode(key_shares[i].as_str()) {
            Ok(b) => {
                if b.len() < 2 {
                    proof {
                        assert(ts[i as int] == key_shares@[i as int]@);
                        assert(!well_formed_shares(ts));
                    }
                    return Err(SealError::MalformedKeyShares);
                }
                decoded.push(b);
            },
            Err(_) => {
                proof {
                    assert(ts[i as int] == key_shares@[i as int]@);
                    assert(!well_formed_shares(ts));
                }
                return Err(SealError::MalformedKeyShares);
            },
        }
        i = i + 1;
    }
    let ghost bytes = decoded_shares(ts);
    proof {
        assert forall|j: int| 0 <= j < ts.len() implies hex_decoded(#[trigger] ts[j]) is Some
            && hex_decoded(ts[j])->0.len() >= 2 by {
            assert(ts[j] == key_shares@[j]@);
            assert(decoded@[j]@.len() >= 2);
        }
        assert(well_formed_shares(ts));
        assert(views(decoded@) =~= bytes) by {
            assert forall|j: int| 0 <= j < bytes.len() implies views(decoded@)[j] == bytes[j] by {
                assert(ts[j] == key_shares@[j]@);
            }
        }
    }
    let secret = match shamir_recover(threshold, &decoded) {
        Ok(s) => s,
        Err(_) => {
            return Err(SealError::MasterKeyRecovery);
        },
    };
    match string_from_utf8(secret) {
        Some(k) => Ok(k),
        None => Err(SealError::MasterKeyRecovery),
    }
}

/// What unsealing does with the stored key shares.
#[derive(Debug)]
pub enum UnsealDecision {
    /// A stored share is not UTF-8 text: the shares are cleared and the
    /// request fails.
    InvalidShareKey,
    /// More shares are needed.
    InProgress { threshold: u8, key_shares_total: u8, key_shares_provided: usize },
    /// The shares do not recover a master key: they are cleared and the
    /// request fails.
    Unrecoverable,
    /// The shares are cleared and the storage is unsealed with `master_key`.
    Unseal { master_key: String },
}

/// Every stored share is UTF-8 text.
pub open spec fn all_utf8(shares: Seq<KeyShare>) -> bool {
    forall|i: int| 0 <= i < shares.len() ==> valid_utf8(#[trigger] shares[i].key@)
}

/// The text of each stored share.
pub open spec fn share_texts(shares: Seq<KeyShare>) -> Seq<Seq<char>> {
    shares.map_values(|k: KeyShare| decode_utf8(k.key@))
}

/// Decides what to do with the key shares stored so far (distinct, in the
/// order they were provided): refuse them when one is not text, wait for
/// more while fewer than the threshold are stored, and otherwise recover the
/// master key from them.
#[verifier::rlimit(30)]
pub fn decide_unseal(config: &SealConfig, shares: &Vec<KeyShare>) -> (r: UnsealDecision)
    ensures
        !all_utf8(shares@) ==> r is InvalidShareKey,
        all_utf8(shares@) && config.threshold > shares@.len() ==> r == (UnsealDecision::InProgress {
            threshold: config.threshold,
            key_shares_total: config.shares,
            key_shares_provided: shares@.len() as usize,
        }),
        all_utf8(shares@) && config.threshold <= shares@.len() ==> match master_key_from(
            share_texts(shares@),
            config.threshold,
        ) {
            Ok(k) => r matches UnsealDecision::Unseal { master_key } && master_key@ == k,
            Err(_) => r is Unrecoverable,
        },
{
    let mut key_texts: Vec<String> = Vec::new();
    let mut i: usize = 0;
    while i < shares.len()
        invariant
            i <= shares@.len(),
            key_texts@.len() == i,
            forall|j: int| 0 <= j < i ==> valid_utf8(#[trigger] shares@[j].key@),
            forall|j: int| 0 <= j < i ==> (#[trigger] key_texts@[j])@ == decode_utf8(shares@[j].key@),
        decreases shares@.len() - i,
    {
        let bytes = vstd::slice::slice_to_vec(shares[i].key.as_slice());
        match string_from_utf8(bytes) {
            Some(t) => {
                key_texts.push(t);
            },
            None => {
                return UnsealDecision::InvalidShareKey;
            },
        }
        i = i + 1;
    }
    proof {
        assert(texts(key_texts@) =~= share_texts(shares@));
    }
    match unseal_progress(config, key_texts.len()) {
        UnsealProgress::InProgress { threshold, key_shares_total, key_shares_provided } => {
            UnsealDecision::InProgress { threshold, key_shares_total, key_shares_provided }
        },
        UnsealProgress::Ready => match construct_master_key(&key_texts, config.threshold) {
            Ok(master_key) => UnsealDecision::Unseal { master_key },
            Err(_) => UnsealDecision::Unrecoverable,
        },
    }
}

/// `t` is the hexadecimal text of a share of a secret of `len` bytes whose
/// `x` coordinate is `x`.
pub open spec fn is_share_text(t: Seq<char>, len: nat, x: int) -> bool {
    &&& hex_decoded(t) is Some
    &&& hex_decoded(t)->0.len() == len + 1
    &&& hex_decoded(t)->0[0] == x
}

/// Any `threshold` (and at least one) of the hexadecimal shares `texts`
/// recover `secret`.
pub open spec fn shares_recover(texts: Seq<Seq<char>>, threshold: u8, secret: Seq<u8>) -> bool {
    forall|idx: Seq<int>|
        distinct_positions(idx, texts.len() as int) && enough_shares(idx, threshold)
            ==> #[trigger] shamir_secret(decoded_shares(picked(texts, idx))) == secret
}

/// Splits the UTF-8 bytes of `master_key` into `shares` key shares, any
/// `threshold` of which recover it, each as lower-case hexadecimal text of
/// its `x` coordinate (counting up from one) followed by its random `y`
/// coordinates. When the key is not empty, `construct_master_key` gives it
/// back from any `threshold` of them.
pub fn deal_key_shares(master_key: &str, threshold: u8, shares: u8) -> (r: Vec<String>)
    ensures
        r@.len() == shares,
        forall|i: int|
            0 <= i < shares ==> is_share_text(#[trigger] r@[i]@, master_key.spec_bytes().len(), i + 1),
        shares_recover(texts(r@), threshold, master_key.spec_bytes()),
        master_key@.len() > 0 ==> forall|idx: Seq<int>|
            distinct_positions(idx, shares as int) && enough_shares(idx, threshold)
                ==> #[trigger] master_key_from(picked(texts(r@), idx), threshold) == Ok::<
                Seq<char>,
                SealError,
            >(master_key@),
{
    let dealt = shamir_deal(threshold, master_key.as_bytes(), shares);
    let mut out: Vec<String> = Vec::new();
    let mut i: usize = 0;
    while i < dealt.len()
        invariant
            i <= dealt@.len(),
            dealt@.len() == shares,
            out@.len() == i,
            forall|j: int|
                0 <= j < shares ==> (#[trigger] dealt@[j])@.len() == master_key.spec_bytes().len() + 1
                    && dealt@[j]@[0] == j + 1,
            forall|j: int| 0 <= j < i ==> (#[trigger] out@[j])@ == hex_encoded(dealt@[j]@),
        decreases dealt@.len() - i,
    {
        out.push(hex_encode(dealt[i].as_slice()));
        i = i + 1;
    }
    proof {
        let ts = texts(out@);
        assert forall|j: int| 0 <= j < shares implies hex_decoded(#[trigger] ts[j]) == Some(dealt@[j]@) by {
            lemma_hex_round_trip(dealt@[j]@);
        }
        assert forall|j: int| 0 <= j < shares implies is_share_text(#[trigger] out@[j]@, master_key.spec_bytes().len(), j + 1) by {
            assert(ts[j] == out@[j]@);
        }
        assert forall|idx: Seq<int>|
            distinct_positions(idx, ts.len() as int) && enough_shares(idx, threshold) implies #[trigger] shamir_secret(
            decoded_shares(picked(ts, idx)),
        ) == master_key.spec_bytes() by {
            lemma_picked_decoded(ts, views(dealt@), idx);
        }
        if master_key@.len() > 0 {
            assert(master_key.spec_bytes().len() > 0) by {
                assert(encode_utf8(master_key@).len() > 0);
            }
            vstd::utf8::encode_utf8_valid_utf8(master_key@);
            vstd::utf8::encode_utf8_decode_utf8(master_key@);
            assert forall|idx: Seq<int>|
                distinct_positions(idx, shares as int) && enough_shares(idx, threshold) implies #[trigger] master_key_from(
                picked(ts, idx),
                threshold,
            ) == Ok::<Seq<char>, SealError>(master_key@) by {
                lemma_picked_decoded(ts, views(dealt@), idx);
                lemma_picked_recovers(ts, views(dealt@), idx, threshold, master_key.spec_bytes().len());
            }
        }
    }
    out
}

/// Decoding the picked shares picks the decoded shares.
proof fn lemma_picked_decoded(ts: Seq<Seq<char>>, bytes: Seq<Seq<u8>>, idx: Seq<int>)
    requires
        ts.len() == bytes.len(),
        forall|j: int| 0 <= j < ts.len() ==> hex_decoded(#[trigger] ts[j]) == Some(bytes[j]),
        distinct_positions(idx, ts.len() as int),
    ensures
        decoded_shares(picked(ts, idx)) == picked(bytes, idx),
{
    assert forall|j: int| 0 <= j < idx.len() implies decoded_shares(picked(ts, idx))[j] == picked(
        bytes,
        idx,
    )[j] by {
        assert(hex_decoded(ts[idx[j]]) == Some(bytes[idx[j]]));
    }
    assert(decoded_shares(picked(ts, idx)) =~= picked(bytes, idx));
}

/// Picked dealt shares are well formed and enough for `sharks` to recover
/// from: all of one length, with distinct `x` coordinates.
proof fn lemma_picked_recovers(ts: Seq<Seq<char>>, bytes: Seq<Seq<u8>>, idx: Seq<int>, threshold: u8, len: nat)
    requires
        ts.len() == bytes.len(),
        ts.len() <= 255,
        len > 0,
        forall|j: int| 0 <= j < ts.len() ==> hex_decoded(#[trigger] ts[j]) == Some(bytes[j]),
        forall|j: int| 0 <= j < bytes.len() ==> (#[trigger] bytes[j]).len() == len + 1 && bytes[j][0] == j + 1,
        distinct_positions(idx, ts.len() as int),
        enough_shares(idx, threshold),
        decoded_shares(picked(ts, idx)) == picked(bytes, idx),
    ensures
        well_formed_shares(picked(ts, idx)),
        !shamir_refuses(threshold, decoded_shares(picked(ts, idx))),
{
    let p = picked(bytes, idx);
    assert forall|j: int| 0 <= j < picked(ts, idx).len() implies hex_decoded(#[trigger] picked(ts, idx)[j]) is Some
        && hex_decoded(picked(ts, idx)[j])->0.len() >= 2 by {
        assert(hex_decoded(ts[idx[j]]) == Some(bytes[idx[j]]));
    }
    assert forall|a: int, b: int| 0 <= a < p.len() && 0 <= b < p.len() implies #[trigger] p[a].len() == #[trigger] p[b].len() by {
        assert(bytes[idx[a]].len() == len + 1);
        assert(bytes[idx[b]].len() == len + 1);
    }
    let xs = Seq::new(idx.len(), |j: int| (idx[j] + 1) as u8);
    assert(xs.no_duplicates()) by {
        assert forall|a: int, b: int| 0 <= a < xs.len() && 0 <= b < xs.len() && a != b implies xs[a] != xs[b] by {
            assert(idx[a] != idx[b]);
        }
    }
    xs.unique_seq_to_set();
    assert(share_xs(p) =~= xs.to_set()) by {
        assert forall|x: u8| share_xs(p).contains(x) == xs.to_set().contains(x) by {
            if share_xs(p).contains(x) {
                let i = choose|i: int| 0 <= i < p.len() && #[trigger] p[i][0] == x;
                assert(bytes[idx[i]][0] == idx[i] + 1);
                assert(xs[i] == x);
            }
            if xs.to_set().contains(x) {
                let i = choose|i: int| 0 <= i < xs.len() && xs[i] == x;
                assert(bytes[idx[i]][0] == idx[i] + 1);
                assert(p[i][0] == x);
            }
        }
    }
}

/// The answer to an initialize request.
#[derive(Debug)]
pub enum InitializeResponse {
    /// The key shares of a new master key, as hexadecimal text.
    NewKeyShares { shares: Vec<String> },
    /// The storage already had a master key.
    ExistingKey { message: String },
}

/// The answer to an initialize request once the storage was initialized:
/// `shares` key shares of the new master key, any `threshold` of which
/// recover it, or, when the storage kept its existing master key (`None`), a message
/// saying so.
pub fn initialize_response(master_key: Option<&str>, threshold: u8, shares: u8) -> (r: InitializeResponse)
    ensures
        match master_key {
            Some(k) => r matches InitializeResponse::NewKeyShares { shares: s } && {
                &&& s@.len() == shares
                &&& forall|i: int|
                    0 <= i < shares ==> is_share_text(#[trigger] s@[i]@, k.spec_bytes().len(), i + 1)
                &&& shares_recover(texts(s@), threshold, k.spec_bytes())
                &&& k@.len() > 0 ==> forall|idx: Seq<int>|
                    distinct_positions(idx, shares as int) && enough_shares(idx, threshold)
                        ==> #[trigger] master_key_from(picked(texts(s@), idx), threshold) == Ok::<
                        Seq<char>,
                        SealError,
                    >(k@)
            },
            None => r matches InitializeResponse::ExistingKey { message } && message@
                == "Initialized with stored master key"@,
        },
{
    match master_key {
        Some(k) => InitializeResponse::NewKeyShares { shares: deal_key_shares(k, threshold, shares) },
        None => InitializeResponse::ExistingKey {
            message: "Initialized with stored master key".to_owned(),
        },
    }
}

// ---------------------------------------------------------------- stored shares

/// The stored shares that `dedup_key_shares` keeps: the first share with
/// each key, in their order.
pub open spec fn first_keys(s: Seq<(Seq<u8>, Seq<u8>)>) -> Seq<(Seq<u8>, Seq<u8>)>
    decreases s.len(),
{
    if s.len() == 0 {
        Seq::empty()
    } else {
        let prev = first_keys(s.drop_last());
        if exists|j: int| 0 <= j < prev.len() && (#[trigger] prev[j]).0 == s.last().0 {
            prev
        } else {
            prev.push(s.last())
        }
    }
}

/// The shares kept by `first_keys` have distinct keys.
pub proof fn law_kept_keys_distinct(s: Seq<(Seq<u8>, Seq<u8>)>, a: int, b: int)
    requires
        0 <= a < b < first_keys(s).len(),
    ensures
        first_keys(s)[a].0 != first_keys(s)[b].0,
    decreases s.len(),
{
    if s.len() > 0 {
        let prev = first_keys(s.drop_last());
        if b < prev.len() {
            law_kept_keys_distinct(s.drop_last(), a, b);
        } else {
            assert(first_keys(s) == prev.push(s.last()));
            assert(!(exists|j: int| 0 <= j < prev.len() && (#[trigger] prev[j]).0 == s.last().0));
            assert(first_keys(s)[a] == prev[a]);
        }
    }
}

pub open spec fn share_views(s: Seq<KeyShare>) -> Seq<(Seq<u8>, Seq<u8>)> {
    s.map_values(|k: KeyShare| (k.key@, k.nonce@))
}

/// Whether two byte strings are equal.
fn bytes_equal(a: &Vec<u8>, b: &Vec<u8>) -> (r: bool)
    ensures
        r == (a@ == b@),
{
    if a.len() != b.len() {
        return false;
    }
    let mut i: usize = 0;
    while i < a.len()
        invariant
            a@.len() == b@.len(),
            i <= a@.len(),
            a@.take(i as int) == b@.take(i as int),
        decreases a@.len() - i,
    {
        if a[i] != b[i] {
            return false;
        }
        assert(a@.take(i + 1) =~= a@.take(i as int).push(a@[i as int]));
        assert(b@.take(i + 1) =~= b@.take(i as int).push(b@[i as int]));
        i = i + 1;
    }
    assert(a@.take(a@.len() as int) =~= a@);
    assert(b@.take(b@.len() as int) =~= b@);
    true
}

/// Keeps the first share with each key, in order.
pub fn dedup_key_shares(shares: Vec<KeyShare>) -> (r: Vec<KeyShare>)
    ensures
        share_views(r@) == first_keys(share_views(shares@)),
{
    let mut out: Vec<KeyShare> = Vec::new();
    let mut rest = shares;
    let ghost all = share_views(rest@);
    // Reverse the shares so that popping visits them front to back.
    let mut reversed: Vec<KeyShare> = Vec::new();
    while rest.len() > 0
        invariant
            share_views(rest@) + share_views(reversed@).reverse() == all,
        decreases rest@.len(),
    {
        let ghost before_rest = rest@;
        let ghost before_rev = reversed@;
        let k = rest.pop().unwrap();
        reversed.push(k);
        proof {
            assert(share_views(before_rest) =~= share_views(rest@).push((k.key@, k.nonce@)));
            assert(share_views(reversed@) =~= share_views(before_rev).push((k.key@, k.nonce@)));
            assert(share_views(reversed@).reverse() =~= seq![(k.key@, k.nonce@)] + share_views(before_rev).reverse());
            assert(share_views(rest@) + share_views(reversed@).reverse() =~= share_views(before_rest) + share_views(before_rev).reverse());
        }
    }
    assert(share_views(reversed@).reverse() =~= all);
    while reversed.len() > 0
        invariant
            all.take(all.len() - reversed@.len()) + share_views(reversed@).reverse() == all,
            reversed@.len() <= all.len(),
            share_views(out@) == first_keys(all.take(all.len() - reversed@.len())),
        decreases reversed@.len(),
    {
        let ghost m = all.len() - reversed@.len();
        let ghost before_rev = reversed@;
        let k = reversed.pop().unwrap();
        proof {
            assert(share_views(before_rev) =~= share_views(reversed@).push((k.key@, k.nonce@)));
            assert(share_views(before_rev).reverse() =~= seq![(k.key@, k.nonce@)] + share_views(reversed@).reverse());
            assert(all[m] == (k.key@, k.nonce@)) by {
                assert((all.take(m) + share_views(before_rev).reverse())[m] == all[m]);
            }
            assert(all.take(m + 1).drop_last() =~= all.take(m));
            assert(all.take(m + 1).last() == all[m]);
            assert(all.take(m + 1) + share_views(reversed@).reverse() =~= all) by {
                assert(all.take(m) + share_views(before_rev).reverse() == all);
                assert(all.take(m + 1) =~= all.take(m).push(all[m]));
            }
        }
        let mut seen = false;
        let mut j: usize = 0;
        while j < out.len()
            invariant
                j <= out@.len(),
                seen == exists|x: int| 0 <= x < j && (#[trigger] share_views(out@)[x]).0 == k.key@,
            decreases out@.len() - j,
        {
            if bytes_equal(&out[j].key, &k.key) {
                seen = true;
            }
            proof {
                if !seen {
                    assert forall|x: int| 0 <= x < j + 1 implies (#[trigger] share_views(out@)[x]).0 != k.key@ by {
                        if x == j {
                            assert(share_views(out@)[x].0 == out@[x].key@);
                        }
                    }
                } else {
                    if !(exists|x: int| 0 <= x < j && (#[trigger] share_views(out@)[x]).0 == k.key@) {
                        assert(share_views(out@)[j as int].0 == k.key@);
                    }
                }
            }
            j = j + 1;
        }
        if !seen {
            let ghost before_out = out@;
            out.push(k);
            proof {
                assert(share_views(out@) =~= share_views(before_out).push((k.key@, k.nonce@)));
            }
        }
    }
    assert(all.take(all.len() as int) =~= all);
    out
}

// ---------------------------------------------------------------- encryption

/// An ASCII letter or digit.
pub open spec fn is_ascii_alphanumeric(c: char) -> bool {
    ('A' <= c && c <= 'Z') || ('a' <= c && c <= 'z') || ('0' <= c && c <= '9')
}

/// Twelve random ASCII letters and digits (`rand`'s `Alphanumeric`).
#[verifier::external_body]
fn random_nonce() -> (r: String)
    ensures
        r@.len() == 12,
        forall|i: int| 0 <= i < 12 ==> is_ascii_alphanumeric(#[trigger] r@[i]),
{
    rand::distributions::Alphanumeric.sample_string(&mut rand::thread_rng(), 12)
}

/// A fresh nonce for encrypting a key share: the bytes of twelve random
/// ASCII letters and digits.
pub fn new_key_share_nonce() -> (r: Vec<u8>)
    ensures
        r@.len() == 12,
        forall|i: int| 0 <= i < 12 ==> is_ascii_alphanumeric(#[trigger] r@[i] as char),
{
    let nonce = random_nonce();
    let nonce_str = nonce.as_str();
    let nonce_bytes = nonce_str.as_bytes();
    proof {
        assert(vstd::utf8::is_ascii_chars(nonce_str@));
        vstd::utf8::is_ascii_chars_encode_utf8(nonce_str@);
        vstd::string::is_ascii_spec_bytes(nonce_str);
    }
    vstd::slice::slice_to_vec(nonce_bytes)
}

/// Longest plaintext AES-256-GCM encrypts (2^36 bytes).
pub open spec fn max_plaintext_len() -> nat {
    0x10_0000_0000
}

/// Longest ciphertext (without its tag) AES-256-GCM decrypts: 2^36 + 16
/// bytes, which is also the longest plaintext decryption gives back.
pub open spec fn max_opened_len() -> nat {
    max_plaintext_len() + 16
}

/// The AES-256-GCM computation on `plaintext` with `key` and `nonce`, without
/// associated data: the keystream applied to it, followed by the
/// authentication tag. Encryption gives it for plaintexts up to 2^36 bytes.
pub uninterp spec fn aes256gcm_sealed(key: Seq<u8>, nonce: Seq<u8>, plaintext: Seq<u8>) -> Seq<u8>;

/// `opened` is what decrypting `ciphertext` gives: the plaintext whose
/// encryption it is, and nothing (`None`) when it is the encryption of no
/// plaintext.
pub open spec fn opens_to(key: Seq<u8>, nonce: Seq<u8>, ciphertext: Seq<u8>, opened: Option<Seq<u8>>) -> bool {
    &&& forall|m: Seq<u8>|
        m.len() <= max_opened_len() && #[trigger] aes256gcm_sealed(key, nonce, m) == ciphertext
            ==> opened == Some(m)
    &&& opened matches Some(p) ==> p.len() <= max_opened_len() && aes256gcm_sealed(key, nonce, p)
        == ciphertext
}

/// A fresh random AES-256 key (`Aes256Gcm::generate_key` with the operating
/// system's random source).
#[verifier::external_body]
fn random_cipher_key() -> (r: Vec<u8>)
    ensures
        r@.len() == 32,
{
    aes_gcm::Aes256Gcm::generate_key(&mut aes_gcm::aead::OsRng).to_vec()
}

/// `Aes256Gcm::encrypt`: fails only on a plaintext longer than 2^36 bytes.
#[verifier::external_body]
fn aes_encrypt(key: &[u8], nonce: &[u8], plaintext: &[u8]) -> (r: Option<Vec<u8>>)
    requires
        key@.len() == 32,
        nonce@.len() == 12,
    ensures
        r is Some <==> plaintext@.len() <= max_plaintext_len(),
        r matches Some(c) ==> c@ == aes256gcm_sealed(key@, nonce@, plaintext@),
{
    match aes_gcm::Aes256Gcm::new_from_slice(key) {
        Ok(cipher) => cipher.encrypt(aes_gcm::Nonce::from_slice(nonce), plaintext).ok(),
        Err(_) => None,
    }
}

/// `Aes256Gcm::decrypt`: gives back the plaintext that `ciphertext` is the
/// encryption of, and fails when it is the encryption of none (its tag does
/// not authenticate it). A ciphertext body of up to 2^36 + 16 bytes is
/// decrypted, so what it gives back may exceed what encryption accepts.
#[verifier::external_body]
fn aes_decrypt(key: &[u8], nonce: &[u8], ciphertext: &[u8]) -> (r: Option<Vec<u8>>)
    requires
        key@.len() == 32,
        nonce@.len() == 12,
    ensures
        opens_to(
            key@,
            nonce@,
            ciphertext@,
            match r {
                Some(p) => Some(p@),
                None => None,
            },
        ),
{
    match aes_gcm::Aes256Gcm::new_from_slice(key) {
        Ok(cipher) => cipher.decrypt(aes_gcm::Nonce::from_slice(nonce), ciphertext).ok(),
        Err(_) => None,
    }
}

/// The cipher that protects the key shares at rest, with a key of its own.
pub struct SealCipher {
    key: Vec<u8>,
}

impl SealCipher {
    /// The cipher's key.
    pub closed spec fn key(&self) -> Seq<u8> {
        self.key@
    }

    /// The key is an AES-256 key.
    pub closed spec fn wf(&self) -> bool {
        self.key@.len() == 32
    }

    /// A cipher with a fresh random key.
    pub fn new() -> (r: Self)
        ensures
            r.wf(),
    {
        SealCipher { key: random_cipher_key() }
    }

    /// Encrypts a key share under a fresh nonce of twelve random letters and
    /// digits; fails (`UnencryptableKeyShare`) only on a share longer than
    /// 2^36 bytes.
    pub fn encrypt_key_share(&self, share: &[u8]) -> (r: Result<KeyShare, SealError>)
        requires
            self.wf(),
        ensures
            r is Ok <==> share@.len() <= max_plaintext_len(),
            r matches Err(e) ==> e == SealError::UnencryptableKeyShare,
            r matches Ok(k) ==> {
                &&& k.nonce@.len() == 12
                &&& forall|i: int| 0 <= i < 12 ==> is_ascii_alphanumeric(#[trigger] k.nonce@[i] as char)
                &&& k.key@ == aes256gcm_sealed(self.key(), k.nonce@, share@)
            },
    {
        let nonce = new_key_share_nonce();
        match aes_encrypt(self.key.as_slice(), nonce.as_slice(), share) {
            Some(key) => Ok(KeyShare { key, nonce }),
            None => Err(SealError::UnencryptableKeyShare),
        }
    }

    /// Decrypts a stored key share, keeping its nonce; `None` when it does
    /// not decrypt.
    pub fn decrypt_key_share(&self, stored: &KeyShare) -> (r: Option<KeyShare>)
        requires
            self.wf(),
            stored.nonce@.len() == 12,
        ensures
            opens_to(
                self.key(),
                stored.nonce@,
                stored.key@,
                match r {
                    Some(k) => Some(k.key@),
                    None => None,
                },
            ),
            r matches Some(k) ==> k.nonce@ == stored.nonce@,
    {
        match aes_decrypt(self.key.as_slice(), stored.nonce.as_slice(), stored.key.as_slice()) {
            Some(key) => Some(KeyShare { key, nonce: vstd::slice::slice_to_vec(stored.nonce.as_slice()) }),
            None => None,
        }
    }

    /// The stored key shares decrypted, the first share of each key kept in
    /// order; fails (`UndecryptableKeyShare`) when one does not decrypt.
    #[verifier::rlimit(30)]
    pub fn decrypt_key_shares(&self, stored: &Vec<KeyShare>) -> (r: Result<Vec<KeyShare>, SealError>)
        requires
            self.wf(),
            forall|i: int| 0 <= i < stored@.len() ==> (#[trigger] stored@[i]).nonce@.len() == 12,
        ensures
            r is Err <==> exists|i: int|
                0 <= i < stored@.len() && opens_to(self.key(), stored@[i].nonce@, #[trigger] stored@[i].key@, None),
            r matches Err(e) ==> e == SealError::UndecryptableKeyShare,
            r matches Ok(v) ==> exists|plain: Seq<Seq<u8>>|
                #![trigger plain.len()]
                {
                    &&& plain.len() == stored@.len()
                    &&& forall|i: int|
                        0 <= i < stored@.len() ==> opens_to(
                            self.key(),
                            stored@[i].nonce@,
                            stored@[i].key@,
                            Some(#[trigger] plain[i]),
                        )
                    &&& share_views(v@) == first_keys(
                        Seq::new(stored@.len(), |i: int| (plain[i], stored@[i].nonce@)),
                    )
                },
    {
        let mut decrypted: Vec<Option<KeyShare>> = Vec::new();
        let mut i: usize = 0;
        while i < stored.len()
            invariant
                self.wf(),
                i <= stored@.len(),
                decrypted@.len() == i,
                forall|j: int| 0 <= j < stored@.len() ==> (#[trigger] stored@[j]).nonce@.len() == 12,
                forall|j: int|
                    0 <= j < i ==> opens_to(
                        self.key(),
                        stored@[j].nonce@,
                        stored@[j].key@,
                        match #[trigger] decrypted@[j] {
                            Some(k) => Some(k.key@),
                            None => None,
                        },
                    ),
                forall|j: int|
                    0 <= j < i && (#[trigger] decrypted@[j]) is Some ==> decrypted@[j]->0.nonce@
                        == stored@[j].nonce@,
            decreases stored@.len() - i,
        {
            decrypted.push(self.decrypt_key_share(&stored[i]));
            i = i + 1;
        }
        let ghost all = decrypted@;
        let r = collect_decrypted(decrypted);
        proof {
            if r is Err {
                let i = choose|i: int| 0 <= i < all.len() && (#[trigger] all[i]) is None;
                assert(opens_to(self.key(), stored@[i].nonce@, stored@[i].key@, None));
            } else {
                let plain = Seq::new(stored@.len(), |i: int| all[i]->0.key@);
                assert forall|i: int| 0 <= i < stored@.len() implies opens_to(
                    self.key(),
                    stored@[i].nonce@,
                    stored@[i].key@,
                    Some(#[trigger] plain[i]),
                ) by {
                    assert(all[i] is Some);
                }
                assert(share_views(all.map_values(|o: Option<KeyShare>| o->0)) =~= Seq::new(
                    stored@.len(),
                    |i: int| (plain[i], stored@[i].nonce@),
                ));
                assert(plain.len() == stored@.len());
                assert forall|i: int| 0 <= i < stored@.len() implies !opens_to(
                    self.key(),
                    stored@[i].nonce@,
                    #[trigger] stored@[i].key@,
                    None,
                ) by {
                    assert(all[i] is Some);
                }
            }
        }
        r
    }
}

/// A key share stored encrypted reads back as it was written.
pub proof fn law_stored_share_reads_back(
    key: Seq<u8>,
    nonce: Seq<u8>,
    share: Seq<u8>,
    stored: Seq<u8>,
    opened: Option<Seq<u8>>,
)
    requires
        share.len() <= max_plaintext_len(),
        stored == aes256gcm_sealed(key, nonce, share),
        opens_to(key, nonce, stored, opened),
    ensures
        opened == Some(share),
{
}

/// The stored key shares once decrypted: fails if any of them could not be
/// decrypted (`None`), and otherwise keeps the first share with each key.
pub fn collect_decrypted(decrypted: Vec<Option<KeyShare>>) -> (r: Result<Vec<KeyShare>, SealError>)
    ensures
        r is Err <==> exists|i: int| 0 <= i < decrypted@.len() && (#[trigger] decrypted@[i]) is None,
        r matches Err(e) ==> e == SealError::UndecryptableKeyShare,
        r matches Ok(v) ==> share_views(v@) == first_keys(
            share_views(decrypted@.map_values(|o: Option<KeyShare>| o->0)),
        ),
{
    let ghost orig = decrypted@;
    let mut rest = decrypted;
    let mut backwards: Vec<KeyShare> = Vec::new();
    while rest.len() > 0
        invariant
            orig == decrypted@,
            rest@ == orig.take(rest@.len() as int),
            rest@.len() <= orig.len(),
            backwards@.len() + rest@.len() == orig.len(),
            forall|j: int|
                rest@.len() <= j < orig.len() ==> orig[j] is Some && backwards@[orig.len() - 1 - j]
                    == #[trigger] orig[j]->0,
        decreases rest@.len(),
    {
        let ghost m = rest@.len() - 1;
        let ghost before = rest@;
        match rest.pop().unwrap() {
            Some(k) => {
                backwards.push(k);
            },
            None => {
                proof {
                    assert(before[m] == orig[m]);
                    assert(orig[m] is None);
                }
                return Err(SealError::UndecryptableKeyShare);
            },
        }
        assert(rest@ =~= orig.take(rest@.len() as int));
    }
    let ghost all = orig.map_values(|o: Option<KeyShare>| o->0);
    let mut forwards: Vec<KeyShare> = Vec::new();
    while backwards.len() > 0
        invariant
            backwards@.len() + forwards@.len() == orig.len(),
            forall|j: int| 0 <= j < forwards@.len() ==> #[trigger] forwards@[j] == all[j],
            forall|j: int|
                forwards@.len() <= j < orig.len() ==> backwards@[orig.len() - 1 - j] == #[trigger] all[j],
        decreases backwards@.len(),
    {
        let k = backwards.pop().unwrap();
        forwards.push(k);
    }
    proof {
        assert(forwards@ =~= all);
    }
    Ok(dedup_key_shares(forwards))
}

} // verus!
