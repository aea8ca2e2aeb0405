//! Secret storage in the operating-system vault. IAM Identity Center session
//! tokens are split into chunks below the Windows credential blob limit and
//! published through a manifest entry, copy-on-write.
use vstd::prelude::*;
use crate::error::{AppError, is_vault_error, vault_error};
use crate::text::{chars_of, decimal, has_prefix, lemma_decimal_injective, lemma_parse_decimal, parse_unsigned, parse_unsigned_chars, push_decimal, slice_chars, starts_with, string_from_chars, utf16_exceeds, utf16_len, utf16_width, char_utf16_width, lemma_decimal_digits};
use crate::vault::{KeyringCall, MemoryVault, NativeVault, Vault, VaultError};

verus! {

broadcast use vstd::string::group_string_axioms;

/// The vault service under which this application's secrets are stored.
pub const SERVICE_NAME: &'static str = "nextvestment-transfer-credentials";

/// What a manifest entry starts with; the chunk count follows in decimal.
pub const CHUNK_MANIFEST: &'static str = "nextvestment-vault-chunks-v1:";

/// UTF-16 units per chunk: 2000 bytes, below Windows' 2560-byte blob limit.
pub const CHUNK_UTF16_LIMIT: usize = 1000;

/// The most chunks a session token may take.
pub const MAX_CHUNKS: usize = 64;

/// What the key of an IAM Identity Center session reference starts with.
pub const SESSION_PREFIX: &'static str = "identity-center-";

/// The message when a session reference is stored a second time.
pub const SESSION_EXISTS: &'static str = "The AWS session reference already exists. Start a new sign-in.";

/// A hexadecimal digit, in either case.
pub open spec fn is_hex_char(c: char) -> bool {
    ('0' <= c && c <= '9') || ('a' <= c && c <= 'f') || ('A' <= c && c <= 'F')
}

/// A lower-case hexadecimal digit.
pub open spec fn is_lower_hex_char(c: char) -> bool {
    ('0' <= c && c <= '9') || ('a' <= c && c <= 'f')
}

/// Whether position `i` of a hyphenated UUID holds a hyphen.
pub open spec fn is_uuid_hyphen_at(i: int) -> bool {
    i == 8 || i == 13 || i == 18 || i == 23
}

/// A hyphenated UUID: 36 characters, groups of 8-4-4-4-12 hexadecimal digits
/// separated by hyphens.
pub open spec fn uuid_hyphenated(s: Seq<char>) -> bool {
    &&& s.len() == 36
    &&& forall|i: int|
        0 <= i < 36 ==> if is_uuid_hyphen_at(i) {
            #[trigger] s[i] == '-'
        } else {
            is_hex_char(s[i])
        }
}

/// `c` equals the lower-case character `lower`, ignoring ASCII case.
pub open spec fn ascii_same_ignoring_case(c: char, lower: char) -> bool {
    c == lower || ('A' <= c && c <= 'Z' && (c as u32) + 32 == (lower as u32))
}

/// The textual forms of a UUID: 32 hexadecimal digits; the hyphenated form;
/// the hyphenated form in braces; or the hyphenated form after a `urn:uuid:`
/// prefix in any ASCII case.
pub open spec fn uuid_text(s: Seq<char>) -> bool {
    ||| s.len() == 32 && forall|i: int| 0 <= i < 32 ==> is_hex_char(#[trigger] s[i])
    ||| uuid_hyphenated(s)
    ||| s.len() == 38 && s[0] == '{' && s[37] == '}' && uuid_hyphenated(s.subrange(1, 37))
    ||| s.len() == 45 && (forall|i: int| 0 <= i < 9 ==> ascii_same_ignoring_case(#[trigger] s[i], "urn:uuid:"@[i]))
        && uuid_hyphenated(s.skip(9))
}

/// `uuid::Uuid::parse_str(s).is_ok()`: whether `s` is a UUID in one of the
/// crate's textual forms (`uuid_text`). The crate reads bytes; every form is
/// ASCII, so reading characters gives the same answer.
#[verifier::external_body]
pub fn uuid_parses(s: &str) -> (r: bool)
    ensures
        r == uuid_text(s@),
{
    uuid::Uuid::parse_str(s).is_ok()
}

/// `uuid::Uuid::new_v4().to_string()`: a fresh random UUID in its hyphenated,
/// lower-case form. Which UUID it is is not stated: it is random.
#[verifier::external_body]
pub fn new_uuid_text() -> (r: String)
    ensures
        uuid_hyphenated(r@),
        forall|i: int| 0 <= i < 36 && !is_uuid_hyphen_at(i) ==> is_lower_hex_char(#[trigger] r@[i]),
{
    uuid::Uuid::new_v4().to_string()
}

/// Whether `key` names an IAM Identity Center session reference:
/// `identity-center-` followed by a UUID.
pub open spec fn is_session_key(key: Seq<char>) -> bool {
    has_prefix(key, SESSION_PREFIX@) && uuid_text(key.skip(SESSION_PREFIX@.len() as int))
}

/// The key of chunk `index` of the session stored under `key`.
pub open spec fn chunk_key_text(key: Seq<char>, index: nat) -> Seq<char> {
    key + ".part."@ + decimal(index)
}

/// The manifest entry of a session stored in `count` chunks.
pub open spec fn manifest_text(count: nat) -> Seq<char> {
    CHUNK_MANIFEST@ + decimal(count)
}

/// The chunk count that a manifest entry announces, if it is a valid manifest.
pub open spec fn manifest_count(manifest: Seq<char>) -> Option<nat> {
    if has_prefix(manifest, CHUNK_MANIFEST@) {
        match parse_unsigned(manifest.skip(CHUNK_MANIFEST@.len() as int), usize::MAX as nat) {
            Some(n) => if 0 < n && n <= MAX_CHUNKS { Some(n) } else { None },
            None => None,
        }
    } else {
        None
    }
}

/// Splitting a secret character by character: the finished chunks, the chunk
/// being filled and its size in UTF-16 units. A character that does not fit in
/// the chunk being filled starts a new one.
pub open spec fn chunk_fold(s: Seq<char>) -> (Seq<Seq<char>>, Seq<char>, nat)
    decreases s.len(),
{
    if s.len() == 0 {
        (seq![], seq![], 0)
    } else {
        let (done, part, units) = chunk_fold(s.drop_last());
        let c = s.last();
        if units + utf16_width(c) > CHUNK_UTF16_LIMIT {
            (done.push(part), seq![c], utf16_width(c))
        } else {
            (done, part.push(c), units + utf16_width(c))
        }
    }
}

/// The chunks that a secret is stored in.
pub open spec fn chunk_plan(s: Seq<char>) -> Seq<Seq<char>> {
    chunk_fold(s).0.push(chunk_fold(s).1)
}

/// The chunks joined in order.
pub open spec fn concat_all(chunks: Seq<Seq<char>>) -> Seq<char>
    decreases chunks.len(),
{
    if chunks.len() == 0 {
        seq![]
    } else {
        concat_all(chunks.drop_last()) + chunks.last()
    }
}

/// The first `n` chunks of the session under `key`, joined.
pub open spec fn joined_chunks(entries: Map<Seq<char>, Seq<char>>, key: Seq<char>, n: nat) -> Seq<char>
    decreases n,
{
    if n == 0 {
        seq![]
    } else {
        joined_chunks(entries, key, (n - 1) as nat) + entries[chunk_key_text(key, (n - 1) as nat)]
    }
}

/// Whether the first `n` chunks of the session under `key` are all present and within the chunk limit.
pub open spec fn chunks_readable(entries: Map<Seq<char>, Seq<char>>, key: Seq<char>, n: nat) -> bool {
    forall|i: nat|
        i < n ==> #[trigger] entries.contains_key(chunk_key_text(key, i)) && utf16_len(
            entries[chunk_key_text(key, i)],
        ) <= CHUNK_UTF16_LIMIT
}

/// What reading `key` from a vault holding `entries` gives: `Some(None)` when
/// nothing is stored, `Some(Some(secret))` for a stored secret, and `None` when
/// the read must fail (invalid manifest, missing or oversized chunk).
pub open spec fn vault_reading(entries: Map<Seq<char>, Seq<char>>, key: Seq<char>) -> Option<Option<Seq<char>>> {
    if !entries.contains_key(key) {
        Some(None)
    } else if !is_session_key(key) {
        Some(Some(entries[key]))
    } else {
        match manifest_count(entries[key]) {
            Some(n) => if chunks_readable(entries, key, n) {
                Some(Some(joined_chunks(entries, key, n)))
            } else {
                None
            },
            None => None,
        }
    }
}

/// `entries` with the first `n` chunks of `chunks` written under `key`'s chunk keys.
pub open spec fn with_chunks(
    entries: Map<Seq<char>, Seq<char>>,
    key: Seq<char>,
    chunks: Seq<Seq<char>>,
    n: nat,
) -> Map<Seq<char>, Seq<char>>
    decreases n,
{
    if n == 0 {
        entries
    } else {
        with_chunks(entries, key, chunks, (n - 1) as nat).insert(
            chunk_key_text(key, (n - 1) as nat),
            chunks[n - 1],
        )
    }
}

/// `entries` without the first `n` chunk keys of `key`.
pub open spec fn without_chunks(entries: Map<Seq<char>, Seq<char>>, key: Seq<char>, n: nat) -> Map<
    Seq<char>,
    Seq<char>,
>
    decreases n,
{
    if n == 0 {
        entries
    } else {
        without_chunks(entries, key, (n - 1) as nat).remove(chunk_key_text(key, (n - 1) as nat))
    }
}

/// The vault contents after successfully storing `secret` under `key`.
pub open spec fn stored(entries: Map<Seq<char>, Seq<char>>, key: Seq<char>, secret: Seq<char>) -> Map<
    Seq<char>,
    Seq<char>,
> {
    if is_session_key(key) {
        let plan = chunk_plan(secret);
        with_chunks(entries, key, plan, plan.len()).insert(key, manifest_text(plan.len()))
    } else {
        entries.insert(key, secret)
    }
}

/// Whether storing `secret` under `key` can succeed on a vault holding `entries`:
/// a session reference must be new and its token must fit in the chunk budget.
pub open spec fn storable(entries: Map<Seq<char>, Seq<char>>, key: Seq<char>, secret: Seq<char>) -> bool {
    is_session_key(key) ==> !entries.contains_key(key) && chunk_plan(secret).len() <= MAX_CHUNKS
}

/// Whether deleting `key` can succeed on a vault holding `entries`: a stored
/// session reference must carry a valid manifest.
pub open spec fn deletable(entries: Map<Seq<char>, Seq<char>>, key: Seq<char>) -> bool {
    is_session_key(key) && entries.contains_key(key) ==> manifest_count(entries[key]) is Some
}

/// The number of chunks announced by the manifest of a session stored under
/// `key`; zero when there is none.
pub open spec fn manifest_chunks(entries: Map<Seq<char>, Seq<char>>, key: Seq<char>) -> nat {
    if is_session_key(key) && entries.contains_key(key) {
        match manifest_count(entries[key]) {
            Some(n) => n,
            None => 0,
        }
    } else {
        0
    }
}

/// The vault contents after successfully deleting `key`.
pub open spec fn deleted(entries: Map<Seq<char>, Seq<char>>, key: Seq<char>) -> Map<Seq<char>, Seq<char>> {
    if is_session_key(key) {
        if entries.contains_key(key) {
            without_chunks(entries, key, manifest_count(entries[key])->0).remove(key)
        } else {
            entries
        }
    } else {
        entries.remove(key)
    }
}

} // verus!

verus! {

/// The state of the chunk fold: the size is that of the chunk being filled,
/// every chunk stays within the limit, and the chunks followed by the one being
/// filled spell the secret.
proof fn lemma_chunk_fold(s: Seq<char>)
    ensures
        chunk_fold(s).2 == utf16_len(chunk_fold(s).1),
        chunk_fold(s).2 <= CHUNK_UTF16_LIMIT,
        concat_all(chunk_fold(s).0) + chunk_fold(s).1 == s,
        forall|i: int|
            0 <= i < chunk_fold(s).0.len() ==> utf16_len(#[trigger] chunk_fold(s).0[i])
                <= CHUNK_UTF16_LIMIT,
    decreases s.len(),
{
    if s.len() > 0 {
        let prev = s.drop_last();
        lemma_chunk_fold(prev);
        let (done, part, units) = chunk_fold(prev);
        let c = s.last();
        if units + utf16_width(c) > CHUNK_UTF16_LIMIT {
            let nd = done.push(part);
            assert(nd.drop_last() == done);
            assert(concat_all(nd) == concat_all(done) + part);
            assert(seq![c].drop_last() =~= Seq::<char>::empty());
            assert(seq![c].last() == c);
            assert(utf16_len(Seq::<char>::empty()) == 0);
            assert(utf16_len(seq![c]) == utf16_width(c));
            assert(concat_all(nd) + seq![c] =~= s);
            assert forall|i: int| 0 <= i < nd.len() implies utf16_len(#[trigger] nd[i]) <= CHUNK_UTF16_LIMIT by {
                if i < done.len() {
                    assert(nd[i] == done[i]);
                }
            }
        } else {
            assert(part.push(c).drop_last() == part);
            assert(part.push(c).last() == c);
            assert(concat_all(done) + part == prev);
            assert(prev.push(c) =~= s);
            assert(concat_all(done) + part.push(c) =~= (concat_all(done) + part).push(c));
        }
    } else {
        assert(concat_all(Seq::<Seq<char>>::empty()) + Seq::<char>::empty() =~= s);
    }
}

/// The chunks of a secret spell the secret, each takes at most
/// `CHUNK_UTF16_LIMIT` UTF-16 units, and there is at least one.
pub proof fn lemma_chunk_plan(s: Seq<char>)
    ensures
        concat_all(chunk_plan(s)) == s,
        chunk_plan(s).len() >= 1,
        forall|i: int|
            0 <= i < chunk_plan(s).len() ==> utf16_len(#[trigger] chunk_plan(s)[i])
                <= CHUNK_UTF16_LIMIT,
{
    lemma_chunk_fold(s);
    let (done, part, units) = chunk_fold(s);
    let plan = chunk_plan(s);
    assert(plan.drop_last() == done);
    assert forall|i: int| 0 <= i < plan.len() implies utf16_len(#[trigger] plan[i]) <= CHUNK_UTF16_LIMIT by {
        if i < done.len() {
            assert(plan[i] == done[i]);
        }
    }
}

/// The chunk that follows finished chunk `i` in a fold state.
spec fn next_chunk(done: Seq<Seq<char>>, part: Seq<char>, i: int) -> Seq<char> {
    if i + 1 < done.len() {
        done[i + 1]
    } else {
        part
    }
}

/// A chunk is finished only when the next character does not fit in it, and
/// that character starts the next chunk.
proof fn lemma_chunk_fold_greedy(s: Seq<char>)
    ensures
        chunk_fold(s).0.len() > 0 ==> chunk_fold(s).1.len() > 0,
        forall|i: int|
            0 <= i < chunk_fold(s).0.len() ==> #[trigger] next_chunk(chunk_fold(s).0, chunk_fold(s).1, i).len() > 0
                && utf16_len(chunk_fold(s).0[i]) + utf16_width(
                next_chunk(chunk_fold(s).0, chunk_fold(s).1, i)[0],
            ) > CHUNK_UTF16_LIMIT,
    decreases s.len(),
{
    if s.len() > 0 {
        let prev = s.drop_last();
        lemma_chunk_fold_greedy(prev);
        lemma_chunk_fold(prev);
        let (done, part, units) = chunk_fold(prev);
        let c = s.last();
        let (nd, np, nu) = chunk_fold(s);
        if units + utf16_width(c) > CHUNK_UTF16_LIMIT {
            assert(nd == done.push(part));
            assert(np == seq![c]);
            assert forall|i: int| 0 <= i < nd.len() implies #[trigger] next_chunk(nd, np, i).len() > 0
                && utf16_len(nd[i]) + utf16_width(next_chunk(nd, np, i)[0]) > CHUNK_UTF16_LIMIT by {
                if i < done.len() {
                    assert(nd[i] == done[i]);
                    assert(next_chunk(nd, np, i) == next_chunk(done, part, i));
                }
            }
        } else {
            assert(nd == done);
            assert(np == part.push(c));
            assert forall|i: int| 0 <= i < nd.len() implies #[trigger] next_chunk(nd, np, i).len() > 0
                && utf16_len(nd[i]) + utf16_width(next_chunk(nd, np, i)[0]) > CHUNK_UTF16_LIMIT by {
                assert(next_chunk(done, part, i).len() > 0);
                if i + 1 >= done.len() {
                    assert(np[0] == part[0]);
                }
            }
        }
    }
}

/// Law: the split is greedy. Every chunk but the last is as long as it can be:
/// the first character of the next chunk would not have fitted in it.
pub proof fn lemma_chunk_plan_greedy(s: Seq<char>, i: int)
    requires
        0 <= i < chunk_plan(s).len() - 1,
    ensures
        chunk_plan(s)[i + 1].len() > 0,
        utf16_len(chunk_plan(s)[i]) + utf16_width(chunk_plan(s)[i + 1][0]) > CHUNK_UTF16_LIMIT,
{
    lemma_chunk_fold_greedy(s);
    let (done, part, units) = chunk_fold(s);
    let plan = chunk_plan(s);
    assert(plan[i] == done[i]);
    assert(plan[i + 1] == next_chunk(done, part, i));
}

/// Finishing a chunk is never undone: the number of finished chunks only grows.
proof fn lemma_chunk_fold_mono(s: Seq<char>, i: int, j: int)
    requires
        0 <= i <= j <= s.len(),
    ensures
        chunk_fold(s.take(i)).0.len() <= chunk_fold(s.take(j)).0.len(),
    decreases j - i,
{
    if i < j {
        lemma_chunk_fold_mono(s, i, j - 1);
        assert(s.take(j).drop_last() == s.take(j - 1));
    }
}

/// A chunk key is never the key itself, and different chunks have different keys.
pub proof fn lemma_chunk_keys_distinct(key: Seq<char>, i: nat, j: nat)
    ensures
        chunk_key_text(key, i) != key,
        chunk_key_text(key, i) == chunk_key_text(key, j) ==> i == j,
{
    lemma_decimal_digits(i);
    reveal_strlit(".part.");
    assert(chunk_key_text(key, i).len() > key.len());
    if chunk_key_text(key, i) == chunk_key_text(key, j) {
        let off = key.len() + 6;
        assert(chunk_key_text(key, i).skip(off as int) =~= decimal(i));
        assert(chunk_key_text(key, j).skip(off as int) =~= decimal(j));
        lemma_decimal_injective(i, j);
    }
}

/// A valid manifest entry announces the count written into it.
pub proof fn lemma_manifest_count(n: nat)
    requires
        0 < n <= MAX_CHUNKS,
    ensures
        manifest_count(manifest_text(n)) == Some(n),
{
    let m = manifest_text(n);
    assert(m.take(CHUNK_MANIFEST@.len() as int) =~= CHUNK_MANIFEST@);
    assert(m.skip(CHUNK_MANIFEST@.len() as int) =~= decimal(n));
    lemma_parse_decimal(n, usize::MAX as nat);
}

/// What the vault holds after writing the first `n` chunks.
proof fn lemma_with_chunks(
    entries: Map<Seq<char>, Seq<char>>,
    key: Seq<char>,
    chunks: Seq<Seq<char>>,
    n: nat,
    k: Seq<char>,
)
    requires
        n <= chunks.len(),
    ensures
        forall|j: nat|
            j < n ==> #[trigger] with_chunks(entries, key, chunks, n).contains_key(chunk_key_text(key, j))
                && with_chunks(entries, key, chunks, n)[chunk_key_text(key, j)] == chunks[j as int],
        (forall|j: nat| j < n ==> k != #[trigger] chunk_key_text(key, j)) ==> (with_chunks(
            entries,
            key,
            chunks,
            n,
        ).contains_key(k) == entries.contains_key(k) && with_chunks(entries, key, chunks, n)[k]
            == entries[k]),
    decreases n,
{
    if n > 0 {
        lemma_with_chunks(entries, key, chunks, (n - 1) as nat, k);
        assert forall|j: nat| j < n implies #[trigger] with_chunks(entries, key, chunks, n).contains_key(
            chunk_key_text(key, j),
        ) && with_chunks(entries, key, chunks, n)[chunk_key_text(key, j)] == chunks[j as int] by {
            lemma_chunk_keys_distinct(key, j, (n - 1) as nat);
            if j < n - 1 {
                assert(with_chunks(entries, key, chunks, (n - 1) as nat).contains_key(chunk_key_text(key, j)));
            }
        }
    }
}

/// What the vault holds after deleting the first `n` chunks.
proof fn lemma_without_chunks(entries: Map<Seq<char>, Seq<char>>, key: Seq<char>, n: nat, k: Seq<char>)
    ensures
        (exists|j: nat| j < n && k == #[trigger] chunk_key_text(key, j)) ==> !without_chunks(
            entries,
            key,
            n,
        ).contains_key(k),
        (forall|j: nat| j < n ==> k != #[trigger] chunk_key_text(key, j)) ==> (without_chunks(
            entries,
            key,
            n,
        ).contains_key(k) == entries.contains_key(k) && without_chunks(entries, key, n)[k]
            == entries[k]),
        without_chunks(entries, key, n).submap_of(entries),
    decreases n,
{
    if n > 0 {
        lemma_without_chunks(entries, key, (n - 1) as nat, k);
        let prev = without_chunks(entries, key, (n - 1) as nat);
        assert forall|k2: Seq<char>| #[trigger] without_chunks(entries, key, n).contains_key(k2) implies prev.contains_key(k2) && without_chunks(entries, key, n)[k2] == prev[k2] by {}
        if exists|j: nat| j < n && k == #[trigger] chunk_key_text(key, j) {
            let j = choose|j: nat| j < n && k == #[trigger] chunk_key_text(key, j);
            if j < n - 1 {
                assert(exists|j2: nat| j2 < n - 1 && k == #[trigger] chunk_key_text(key, j2));
            }
        }
    }
}

/// The joined chunks of a session whose first `m` chunks were written from `chunks`.
proof fn lemma_joined_written(
    entries: Map<Seq<char>, Seq<char>>,
    key: Seq<char>,
    chunks: Seq<Seq<char>>,
    m: nat,
)
    requires
        m <= chunks.len(),
        forall|j: nat| j < m ==> #[trigger] entries[chunk_key_text(key, j)] == chunks[j as int],
    ensures
        joined_chunks(entries, key, m) == concat_all(chunks.take(m as int)),
    decreases m,
{
    if m > 0 {
        lemma_joined_written(entries, key, chunks, (m - 1) as nat);
        assert(chunks.take(m as int).drop_last() == chunks.take(m - 1));
        assert(entries[chunk_key_text(key, (m - 1) as nat)] == chunks[m - 1]);
    } else {
        assert(chunks.take(0) =~= Seq::<Seq<char>>::empty());
    }
}

/// Law: after a successful store, reading the key gives back the secret.
pub proof fn lemma_read_after_store(entries: Map<Seq<char>, Seq<char>>, key: Seq<char>, secret: Seq<char>)
    requires
        storable(entries, key, secret),
    ensures
        vault_reading(stored(entries, key, secret), key) == Some(Some(secret)),
{
    if is_session_key(key) {
        let plan = chunk_plan(secret);
        let n = plan.len();
        lemma_chunk_plan(secret);
        let w = with_chunks(entries, key, plan, n);
        let fin = stored(entries, key, secret);
        lemma_with_chunks(entries, key, plan, n, key);
        lemma_manifest_count(n);
        assert forall|j: nat| j < n implies #[trigger] fin[chunk_key_text(key, j)] == plan[j as int] by {
            lemma_chunk_keys_distinct(key, j, j);
            assert(w.contains_key(chunk_key_text(key, j)));
        }
        assert forall|i: nat| i < n implies #[trigger] fin.contains_key(chunk_key_text(key, i)) && utf16_len(
            fin[chunk_key_text(key, i)],
        ) <= CHUNK_UTF16_LIMIT by {
            lemma_chunk_keys_distinct(key, i, i);
            assert(w.contains_key(chunk_key_text(key, i)));
            assert(utf16_len(plan[i as int]) <= CHUNK_UTF16_LIMIT);
        }
        lemma_joined_written(fin, key, plan, n);
        assert(plan.take(n as int) == plan);
    }
}

/// Law: every chunk that storing a session token writes fits the vault's blob
/// limit (at most `CHUNK_UTF16_LIMIT` UTF-16 units, 2000 bytes), and the chunks
/// in order spell the token.
pub proof fn lemma_stored_chunks_within_limit(
    entries: Map<Seq<char>, Seq<char>>,
    key: Seq<char>,
    secret: Seq<char>,
    i: nat,
)
    requires
        is_session_key(key),
        storable(entries, key, secret),
        i < chunk_plan(secret).len(),
    ensures
        stored(entries, key, secret).contains_key(chunk_key_text(key, i)),
        utf16_len(stored(entries, key, secret)[chunk_key_text(key, i)]) <= CHUNK_UTF16_LIMIT,
        concat_all(chunk_plan(secret)) == secret,
{
    let plan = chunk_plan(secret);
    lemma_chunk_plan(secret);
    lemma_with_chunks(entries, key, plan, plan.len(), key);
    lemma_chunk_keys_distinct(key, i, i);
    assert(with_chunks(entries, key, plan, plan.len()).contains_key(chunk_key_text(key, i)));
    assert(utf16_len(plan[i as int]) <= CHUNK_UTF16_LIMIT);
}

/// Law: after a successful delete, nothing is stored under the key.
pub proof fn lemma_read_after_delete(entries: Map<Seq<char>, Seq<char>>, key: Seq<char>)
    requires
        deletable(entries, key),
    ensures
        vault_reading(deleted(entries, key), key) == Some(None::<Seq<char>>),
{
}

/// Law: deleting a freshly stored key restores the vault as it was, when
/// neither the key nor any of its chunk keys was present before.
pub proof fn lemma_delete_undoes_store(entries: Map<Seq<char>, Seq<char>>, key: Seq<char>, secret: Seq<char>)
    requires
        storable(entries, key, secret),
        !entries.contains_key(key),
        forall|j: nat| !(#[trigger] entries.contains_key(chunk_key_text(key, j))),
    ensures
        deletable(stored(entries, key, secret), key),
        deleted(stored(entries, key, secret), key) == entries,
{
    let after = stored(entries, key, secret);
    if is_session_key(key) {
        let plan = chunk_plan(secret);
        let n = plan.len();
        lemma_chunk_plan(secret);
        lemma_manifest_count(n);
        let wc = with_chunks(entries, key, plan, n);
        let back = without_chunks(after, key, n).remove(key);
        assert forall|k: Seq<char>| #[trigger] back.contains_key(k) == entries.contains_key(k) && (back.contains_key(k)
            ==> back[k] == entries[k]) by {
            lemma_without_chunks(after, key, n, k);
            lemma_with_chunks(entries, key, plan, n, k);
            if exists|j: nat| j < n && k == #[trigger] chunk_key_text(key, j) {
                let j = choose|j: nat| j < n && k == #[trigger] chunk_key_text(key, j);
                assert(!entries.contains_key(chunk_key_text(key, j)));
            } else if k != key {
                assert(after.contains_key(k) == wc.contains_key(k));
            }
        }
        assert(back =~= entries);
    } else {
        assert(after.remove(key) =~= entries);
    }
}

/// Law: deleting twice leaves the vault as deleting once.
pub proof fn lemma_delete_idempotent(entries: Map<Seq<char>, Seq<char>>, key: Seq<char>)
    requires
        deletable(entries, key),
    ensures
        deletable(deleted(entries, key), key),
        deleted(deleted(entries, key), key) == deleted(entries, key),
{
    if !is_session_key(key) {
        assert(deleted(deleted(entries, key), key) =~= deleted(entries, key));
    }
}

/// Law: deleting a key never adds or changes an entry.
pub proof fn lemma_delete_only_removes(entries: Map<Seq<char>, Seq<char>>, key: Seq<char>)
    requires
        deletable(entries, key),
    ensures
        deleted(entries, key).submap_of(entries),
{
    if is_session_key(key) && entries.contains_key(key) {
        let n = manifest_count(entries[key])->0;
        lemma_without_chunks(entries, key, n, key);
    }
}

} // verus!

verus! {

/// Whether `key` names an IAM Identity Center session reference.
pub fn is_identity_session(key: &str) -> (r: bool)
    ensures
        r == is_session_key(key@),
{
    let chars = chars_of(key);
    let prefix = chars_of(SESSION_PREFIX);
    if !starts_with(&chars, &prefix) {
        return false;
    }
    let rest = string_from_chars(&slice_chars(&chars, prefix.len(), chars.len()));
    assert(key@.subrange(prefix.len() as int, key@.len() as int) == key@.skip(
        SESSION_PREFIX@.len() as int,
    ));
    uuid_parses(rest.as_str())
}

/// The key of chunk `index` of the session stored under `key`: `{key}.part.{index}`.
pub fn chunk_key(key: &str, index: usize) -> (r: String)
    ensures
        r@ == chunk_key_text(key@, index as nat),
{
    let mut chars = chars_of(key);
    let sep = chars_of(".part.");
    let mut i: usize = 0;
    while i < sep.len()
        invariant
            i <= sep.len(),
            sep@ == ".part."@,
            chars@ == key@ + sep@.take(i as int),
        decreases sep.len() - i,
    {
        chars.push(sep[i]);
        i = i + 1;
        assert(sep@.take(i as int) == sep@.take(i - 1).push(sep@[i - 1]));
    }
    assert(sep@.take(sep.len() as int) == sep@);
    push_decimal(&mut chars, index);
    string_from_chars(&chars)
}

/// The chunk count announced by a session manifest; the vault error when the
/// manifest is not valid.
pub fn chunk_count(manifest: &str) -> (r: Result<usize, AppError>)
    ensures
        match manifest_count(manifest@) {
            Some(n) => r matches Ok(c) && c == n,
            None => r matches Err(e) && is_vault_error(e),
        },
{
    let chars = chars_of(manifest);
    let prefix = chars_of(CHUNK_MANIFEST);
    if !starts_with(&chars, &prefix) {
        return Err(vault_error());
    }
    let rest = slice_chars(&chars, prefix.len(), chars.len());
    assert(rest@ == manifest@.skip(CHUNK_MANIFEST@.len() as int));
    match parse_unsigned_chars(&rest, usize::MAX) {
        Some(n) => {
            if n > 0 && n <= MAX_CHUNKS {
                Ok(n)
            } else {
                Err(vault_error())
            }
        },
        None => Err(vault_error()),
    }
}

/// The views of a vector of strings.
pub open spec fn views(v: Seq<String>) -> Seq<Seq<char>> {
    v.map_values(|s: String| s@)
}

/// Splits a session token into the chunks it is stored in; the vault error when
/// it needs more than `MAX_CHUNKS` chunks.
pub fn secret_chunks(secret: &str) -> (r: Result<Vec<String>, AppError>)
    ensures
        chunk_plan(secret@).len() <= MAX_CHUNKS ==> (r matches Ok(chunks) && views(chunks@) == chunk_plan(secret@)),
        chunk_plan(secret@).len() > MAX_CHUNKS ==> (r matches Err(e) && is_vault_error(e)),
{
    let chars = chars_of(secret);
    let mut chunks: Vec<String> = Vec::new();
    let mut part: Vec<char> = Vec::new();
    let mut units: usize = 0;
    let mut i: usize = 0;
    assert(chars@.take(0) =~= Seq::<char>::empty());
    while i < chars.len()
        invariant
            i <= chars.len(),
            chars@ == secret@,
            views(chunks@) == chunk_fold(chars@.take(i as int)).0,
            part@ == chunk_fold(chars@.take(i as int)).1,
            units == chunk_fold(chars@.take(i as int)).2,
            units <= CHUNK_UTF16_LIMIT,
            chunks.len() < MAX_CHUNKS,
        decreases chars.len() - i,
    {
        proof {
            lemma_chunk_fold(chars@.take(i as int));
            assert(chars@.take(i + 1).drop_last() == chars@.take(i as int));
            assert(chars@.take(i + 1).last() == chars@[i as int]);
        }
        let c = chars[i];
        let size = char_utf16_width(c);
        if units + size > CHUNK_UTF16_LIMIT {
            let done = string_from_chars(&part);
            chunks.push(done);
            part = Vec::new();
            units = 0;
            assert(views(chunks@) =~= chunk_fold(chars@.take(i + 1)).0);
        }
        part.push(c);
        units = units + size;
        i = i + 1;
        if chunks.len() >= MAX_CHUNKS {
            proof {
                lemma_chunk_fold_mono(chars@, i as int, chars@.len() as int);
                assert(chars@.take(chars@.len() as int) == chars@);
            }
            return Err(vault_error());
        }
    }
    proof {
        assert(chars@.take(chars@.len() as int) == chars@);
    }
    let last = string_from_chars(&part);
    chunks.push(last);
    assert(views(chunks@) =~= chunk_plan(secret@));
    Ok(chunks)
}

} // verus!

verus! {

/// The manifest entry for a session stored in `count` chunks.
pub fn manifest_string(count: usize) -> (r: String)
    ensures
        r@ == manifest_text(count as nat),
{
    let mut chars = chars_of(CHUNK_MANIFEST);
    push_decimal(&mut chars, count);
    string_from_chars(&chars)
}

/// Whether `e` is a vault-storage error with `message`.
pub open spec fn is_keychain_error(e: AppError, message: Seq<char>) -> bool {
    e matches AppError::KeychainError(m) && m@ == message
}

/// The view of an optional string.
pub open spec fn opt_view(o: Option<String>) -> Option<Seq<char>> {
    match o {
        Some(s) => Some(s@),
        None => None,
    }
}

/// Whether `k` is one of the chunk keys of `key`.
pub open spec fn is_chunk_key_of(key: Seq<char>, k: Seq<char>) -> bool {
    exists|j: nat| k == #[trigger] chunk_key_text(key, j)
}

/// `after` holds what `before` holds everywhere but at the chunk keys of `key`.
pub open spec fn same_except_chunks(
    before: Map<Seq<char>, Seq<char>>,
    after: Map<Seq<char>, Seq<char>>,
    key: Seq<char>,
) -> bool {
    forall|k: Seq<char>|
        !is_chunk_key_of(key, k) ==> (#[trigger] after.contains_key(k) == before.contains_key(k) && (
        before.contains_key(k) ==> after[k] == before[k]))
}

/// A key is never one of its own chunk keys.
proof fn lemma_key_not_own_chunk(key: Seq<char>)
    ensures
        !is_chunk_key_of(key, key),
{
    if is_chunk_key_of(key, key) {
        let j = choose|j: nat| key == #[trigger] chunk_key_text(key, j);
        lemma_chunk_keys_distinct(key, j, j);
    }
}

/// Writing or removing a chunk key of `key` keeps every other entry.
proof fn lemma_touch_chunk(
    a: Map<Seq<char>, Seq<char>>,
    b: Map<Seq<char>, Seq<char>>,
    c: Map<Seq<char>, Seq<char>>,
    key: Seq<char>,
    j: nat,
)
    requires
        same_except_chunks(a, b, key),
        forall|k: Seq<char>| k != chunk_key_text(key, j) ==> (#[trigger] c.contains_key(k) == b.contains_key(k) && (b.contains_key(k) ==> c[k] == b[k])),
    ensures
        same_except_chunks(a, c, key),
{
    assert forall|k: Seq<char>| !is_chunk_key_of(key, k) implies (#[trigger] c.contains_key(k) == a.contains_key(k) && (
        a.contains_key(k) ==> c[k] == a[k])) by {
        if k == chunk_key_text(key, j) {
            assert(is_chunk_key_of(key, k));
        }
        assert(b.contains_key(k) == a.contains_key(k));
    }
}

proof fn lemma_same_except_trans(
    a: Map<Seq<char>, Seq<char>>,
    b: Map<Seq<char>, Seq<char>>,
    c: Map<Seq<char>, Seq<char>>,
    key: Seq<char>,
)
    requires
        same_except_chunks(a, b, key),
        same_except_chunks(b, c, key),
    ensures
        same_except_chunks(a, c, key),
{
    assert forall|k: Seq<char>| !is_chunk_key_of(key, k) implies (#[trigger] c.contains_key(k) == a.contains_key(k) && (
        a.contains_key(k) ==> c[k] == a[k])) by {
        assert(b.contains_key(k) == a.contains_key(k));
        assert(c.contains_key(k) == b.contains_key(k));
    }
}

/// Writing chunks touches only chunk keys.
proof fn lemma_with_chunks_same_except(
    entries: Map<Seq<char>, Seq<char>>,
    key: Seq<char>,
    chunks: Seq<Seq<char>>,
    n: nat,
)
    requires
        n <= chunks.len(),
    ensures
        same_except_chunks(entries, with_chunks(entries, key, chunks, n), key),
{
    assert forall|k: Seq<char>| !is_chunk_key_of(key, k) implies (#[trigger] with_chunks(entries, key, chunks, n).contains_key(k)
        == entries.contains_key(k) && (entries.contains_key(k) ==> with_chunks(entries, key, chunks, n)[k]
        == entries[k])) by {
        lemma_with_chunks(entries, key, chunks, n, k);
        assert forall|j: nat| j < n implies k != #[trigger] chunk_key_text(key, j) by {
            if k == chunk_key_text(key, j) {
                assert(is_chunk_key_of(key, k));
            }
        }
    }
}

/// Rolling back the first `w >= m` chunk keys after writing `m` chunks leaves
/// the original vault without those `w` chunk keys.
proof fn lemma_rollback(
    entries: Map<Seq<char>, Seq<char>>,
    key: Seq<char>,
    chunks: Seq<Seq<char>>,
    m: nat,
    w: nat,
)
    requires
        m <= chunks.len(),
        m <= w,
    ensures
        without_chunks(with_chunks(entries, key, chunks, m), key, w) == without_chunks(entries, key, w),
{
    let wc = with_chunks(entries, key, chunks, m);
    let lhs = without_chunks(wc, key, w);
    let rhs = without_chunks(entries, key, w);
    assert forall|k: Seq<char>| #[trigger] lhs.contains_key(k) == rhs.contains_key(k) && (lhs.contains_key(k)
        ==> lhs[k] == rhs[k]) by {
        lemma_without_chunks(wc, key, w, k);
        lemma_without_chunks(entries, key, w, k);
        lemma_with_chunks(entries, key, chunks, m, k);
        if exists|j: nat| j < m && k == #[trigger] chunk_key_text(key, j) {
            let j = choose|j: nat| j < m && k == #[trigger] chunk_key_text(key, j);
            assert(j < w);
        }
    }
    assert(lhs =~= rhs);
}

/// A character takes at most two UTF-16 units.
proof fn lemma_utf16_len_at_most_double(s: Seq<char>)
    ensures
        utf16_len(s) <= 2 * s.len(),
    decreases s.len(),
{
    if s.len() > 0 {
        lemma_utf16_len_at_most_double(s.drop_last());
    }
}

/// A manifest entry is far within the chunk limit.
proof fn lemma_manifest_short(n: nat)
    requires
        n <= MAX_CHUNKS,
    ensures
        utf16_len(manifest_text(n)) <= CHUNK_UTF16_LIMIT,
{
    reveal_strlit("nextvestment-vault-chunks-v1:");
    if n >= 10 {
        assert(decimal(n / 10).len() == 1);
    }
    assert(decimal(n).len() <= 2);
    lemma_utf16_len_at_most_double(manifest_text(n));
}

/// Vault storage for secrets. There is deliberately no filesystem fallback.
pub struct KeychainStorage<V: Vault> {
    vault: V,
}

impl KeychainStorage<NativeVault> {
    /// Storage in the operating-system vault under `SERVICE_NAME`.
    pub fn new() -> (s: Self)
        ensures
            s.service()@ == SERVICE_NAME@,
            s.requests() == Seq::<KeyringCall>::empty(),
    {
        KeychainStorage { vault: NativeVault::new(SERVICE_NAME.to_owned()) }
    }

    /// The vault service name that secrets are stored under.
    pub closed spec fn service(&self) -> String {
        self.vault.service
    }

    /// The writes and deletes handed to the operating-system vault so far.
    pub closed spec fn requests(&self) -> Seq<KeyringCall> {
        self.vault.requests@
    }
}

impl Default for KeychainStorage<NativeVault> {
    fn default() -> (s: Self)
        ensures
            s.service()@ == SERVICE_NAME@,
            s.requests() == Seq::<KeyringCall>::empty(),
    {
        Self::new()
    }
}

impl<V: Vault> KeychainStorage<V> {
    /// Storage in the given vault.
    pub fn with_vault(vault: V) -> (s: Self)
        ensures
            s.entries() == vault.entries(),
            s.faithful() == vault.faithful(),
            s.steady() == (vault.faithful() && vault.steady()),
            s.available() == vault.available(),
            forall|k: Seq<char>, v: Seq<char>| #[trigger] s.accepts(k, v) == vault.accepts(k, v),
            forall|k: Seq<char>| #[trigger] s.releases(k) == vault.releases(k),
    {
        KeychainStorage { vault }
    }

    /// What the underlying vault holds.
    pub closed spec fn entries(&self) -> Map<Seq<char>, Seq<char>> {
        self.vault.entries()
    }

    /// Whether the underlying vault's answers agree with `entries()`.
    pub closed spec fn faithful(&self) -> bool {
        self.vault.faithful()
    }

    /// Whether the underlying vault is faithful and its failures are fixed by
    /// `available`, `accepts` and `releases`.
    pub closed spec fn steady(&self) -> bool {
        self.vault.faithful() && self.vault.steady()
    }

    /// Whether the underlying vault answers at all.
    pub closed spec fn available(&self) -> bool {
        self.vault.available()
    }

    /// Whether the underlying vault takes `value` under `key`.
    pub closed spec fn accepts(&self, key: Seq<char>, value: Seq<char>) -> bool {
        self.vault.accepts(key, value)
    }

    /// Whether the underlying vault lets `key` be deleted.
    pub closed spec fn releases(&self, key: Seq<char>) -> bool {
        self.vault.releases(key)
    }

    /// A reliable vault: faithful, steady, available, taking every write and
    /// every delete.
    pub open spec fn reliable(&self) -> bool {
        &&& self.faithful()
        &&& self.steady()
        &&& self.available()
        &&& forall|k: Seq<char>, v: Seq<char>| #[trigger] self.accepts(k, v)
        &&& forall|k: Seq<char>| #[trigger] self.releases(k)
    }

    /// The vault answers as `other` does: same faithfulness and steadiness,
    /// availability, accepted pairs and released keys.
    pub open spec fn same_terms(&self, other: &Self) -> bool {
        &&& self.faithful() == other.faithful()
        &&& self.steady() == other.steady()
        &&& self.available() == other.available()
        &&& forall|k: Seq<char>, v: Seq<char>| #[trigger] self.accepts(k, v) == other.accepts(k, v)
        &&& forall|k: Seq<char>| #[trigger] self.releases(k) == other.releases(k)
    }

    /// Whether the vault takes every write of storing `secret` under the session
    /// reference `key`: each chunk, then the manifest.
    pub open spec fn writes_accepted(&self, key: Seq<char>, secret: Seq<char>) -> bool {
        let plan = chunk_plan(secret);
        &&& forall|i: nat| i < plan.len() ==> #[trigger] self.accepts(chunk_key_text(key, i), plan[i as int])
        &&& self.accepts(key, manifest_text(plan.len()))
    }

    /// Whether the vault lets the first `n` chunk keys of `key` be deleted.
    pub open spec fn chunks_released(&self, key: Seq<char>, n: nat) -> bool {
        forall|i: nat| i < n ==> #[trigger] self.releases(chunk_key_text(key, i))
    }

    /// Law: a vault that takes every value within the chunk limit takes every
    /// write of storing a session token that fits the chunk budget.
    pub proof fn lemma_limit_suffices(&self, key: Seq<char>, secret: Seq<char>)
        requires
            chunk_plan(secret).len() <= MAX_CHUNKS,
            forall|k: Seq<char>, v: Seq<char>| utf16_len(v) <= CHUNK_UTF16_LIMIT ==> #[trigger] self.accepts(k, v),
        ensures
            self.writes_accepted(key, secret),
    {
        let plan = chunk_plan(secret);
        lemma_chunk_plan(secret);
        lemma_manifest_short(plan.len());
        assert forall|i: nat| i < plan.len() implies #[trigger] self.accepts(chunk_key_text(key, i), plan[i as int]) by {
            assert(utf16_len(plan[i as int]) <= CHUNK_UTF16_LIMIT);
        }
    }

    /// Removes the first `count` chunk keys of `key`, ignoring failures.
    fn rollback_chunks(&mut self, key: &str, count: usize)
        ensures
            final(self).faithful() == old(self).faithful(),
            final(self).steady() == old(self).steady(),
            old(self).steady() ==> crate::vault::same_terms(old(self).vault, final(self).vault),
            old(self).faithful() ==> same_except_chunks(old(self).entries(), final(self).entries(), key@),
            old(self).steady() && old(self).available() && old(self).chunks_released(key@, count as nat)
                ==> final(self).entries() == without_chunks(old(self).entries(), key@, count as nat),
    {
        let mut w: usize = 0;
        while w < count
            invariant
                w <= count,
                self.faithful() == old(self).faithful(),
                self.steady() == old(self).steady(),
                old(self).steady() ==> crate::vault::same_terms(old(self).vault, self.vault),
                old(self).faithful() ==> same_except_chunks(old(self).entries(), self.entries(), key@),
                old(self).steady() && old(self).available() && old(self).chunks_released(key@, count as nat)
                    ==> self.entries() == without_chunks(old(self).entries(), key@, w as nat),
            decreases count - w,
        {
            let ck = chunk_key(key, w);
            let ghost prev = self.vault;
            let _ = self.vault.delete(ck.as_str());
            proof {
                if old(self).faithful() {
                    lemma_touch_chunk(old(self).entries(), prev.entries(), self.entries(), key@, w as nat);
                }
                if old(self).steady() {
                    crate::vault::lemma_same_terms_trans(old(self).vault, prev, self.vault);
                    if old(self).available() && old(self).chunks_released(key@, count as nat) {
                        assert(old(self).releases(chunk_key_text(key@, w as nat)));
                    }
                }
            }
            w = w + 1;
        }
    }

    /// Stores `secret` under `key`. A session reference is written as chunks
    /// followed by its manifest, only when no session is stored under the key
    /// (a live session is never touched), and a failed write removes the chunks
    /// written and publishes no manifest. Any vault failure is the vault error.
    pub fn store(&mut self, key: &str, secret: &str) -> (r: Result<(), AppError>)
        ensures
            final(self).faithful() == old(self).faithful(),
            final(self).steady() == old(self).steady(),
            old(self).steady() ==> final(self).same_terms(old(self)),
            r matches Err(e) ==> is_vault_error(e) || (is_session_key(key@) && is_keychain_error(
                e,
                SESSION_EXISTS@,
            )),
            old(self).faithful() && r is Ok ==> storable(old(self).entries(), key@, secret@)
                && final(self).entries() == stored(old(self).entries(), key@, secret@),
            old(self).faithful() && r is Err ==> same_except_chunks(old(self).entries(), final(self).entries(), key@)
                && final(self).entries().contains_key(key@) == old(self).entries().contains_key(key@),
            old(self).faithful() && r is Err && (!is_session_key(key@) || old(self).entries().contains_key(key@))
                ==> final(self).entries() == old(self).entries(),
            old(self).faithful() && is_session_key(key@) && old(self).entries().contains_key(key@) ==> r is Err,
            old(self).faithful() && is_session_key(key@) && !old(self).entries().contains_key(key@) ==> (r matches Err(
                e,
            ) ==> is_vault_error(e)),
            old(self).reliable() ==> (r is Ok <==> storable(old(self).entries(), key@, secret@)),
            old(self).steady() && !old(self).available() ==> (r matches Err(e) && is_vault_error(e))
                && final(self).entries() == old(self).entries(),
            old(self).steady() && old(self).available() && !is_session_key(key@) ==> (r is Ok <==> old(self).accepts(
                key@,
                secret@,
            )),
            old(self).steady() && old(self).available() && is_session_key(key@) && old(
                self,
            ).entries().contains_key(key@) ==> (r matches Err(e) && is_keychain_error(e, SESSION_EXISTS@)),
            is_session_key(key@) && chunk_plan(secret@).len() > MAX_CHUNKS ==> r is Err
                && final(self).entries() == old(self).entries(),
            old(self).steady() && old(self).available() && is_session_key(key@) && !old(
                self,
            ).entries().contains_key(key@) && chunk_plan(secret@).len() <= MAX_CHUNKS ==> {
                &&& r is Ok <==> old(self).writes_accepted(key@, secret@)
                &&& r is Err ==> (r matches Err(e) && is_vault_error(e))
                &&& r is Err && old(self).chunks_released(key@, chunk_plan(secret@).len()) ==> exists|m: nat|
                    m <= chunk_plan(secret@).len() && final(self).entries() == #[trigger] without_chunks(
                        old(self).entries(),
                        key@,
                        m,
                    )
            },
    {
        let ghost start = self.entries();
        proof {
            lemma_key_not_own_chunk(key@);
        }
        if !is_identity_session(key) {
            proof {
                if old(self).reliable() {
                    assert(old(self).accepts(key@, secret@));
                }
            }
            return match self.vault.store(key, secret) {
                Ok(()) => Ok(()),
                Err(_) => Err(vault_error()),
            };
        }
        match self.vault.get(key) {
            Ok(_) => {
                return Err(AppError::KeychainError(SESSION_EXISTS.to_owned()));
            },
            Err(VaultError::NoEntry) => {},
            Err(_) => {
                return Err(vault_error());
            },
        }
        let chunks = secret_chunks(secret)?;
        let ghost plan = chunk_plan(secret@);
        let n = chunks.len();
        proof {
            lemma_chunk_plan(secret@);
        }
        let mut index: usize = 0;
        while index < n
            invariant
                index <= n,
                n == chunks.len(),
                views(chunks@) == plan,
                plan == chunk_plan(secret@),
                n <= MAX_CHUNKS,
                is_session_key(key@),
                start == old(self).entries(),
                self.faithful() == old(self).faithful(),
                self.steady() == old(self).steady(),
                old(self).steady() ==> crate::vault::same_terms(old(self).vault, self.vault),
                old(self).faithful() ==> !start.contains_key(key@),
                old(self).steady() ==> old(self).available(),
                old(self).faithful() ==> self.entries() == with_chunks(start, key@, plan, index as nat),
                old(self).steady() ==> forall|j: nat| j < index ==> #[trigger] old(self).accepts(chunk_key_text(key@, j), plan[j as int]),
                !is_chunk_key_of(key@, key@),
            decreases n - index,
        {
            let ck = chunk_key(key, index);
            assert(chunks@[index as int]@ == plan[index as int]);
            let ghost prev = self.vault;
            match self.vault.store(ck.as_str(), chunks[index].as_str()) {
                Ok(()) => {
                    proof {
                        if old(self).steady() {
                            crate::vault::lemma_same_terms_trans(old(self).vault, prev, self.vault);
                            assert(old(self).accepts(chunk_key_text(key@, index as nat), plan[index as int]));
                        }
                    }
                },
                Err(_) => {
                    proof {
                        if old(self).steady() {
                            crate::vault::lemma_same_terms_trans(old(self).vault, prev, self.vault);
                            assert(!old(self).accepts(chunk_key_text(key@, index as nat), plan[index as int]));
                            assert(!old(self).writes_accepted(key@, secret@));
                        }
                    }
                    let ghost written = self.entries();
                    let ghost mid = self.vault;
                    self.rollback_chunks(key, index + 1);
                    proof {
                        if old(self).faithful() {
                            lemma_with_chunks_same_except(start, key@, plan, index as nat);
                            lemma_same_except_trans(start, written, self.entries(), key@);
                        }
                        if old(self).steady() {
                            crate::vault::lemma_same_terms_trans(old(self).vault, mid, self.vault);
                            lemma_rollback(start, key@, plan, index as nat, (index + 1) as nat);
                            if old(self).chunks_released(key@, plan.len()) {
                                assert forall|i: nat| i < index + 1 implies #[trigger] mid.releases(chunk_key_text(key@, i)) by {
                                    assert(old(self).releases(chunk_key_text(key@, i)));
                                }
                                assert(self.entries() == without_chunks(start, key@, (index + 1) as nat));
                            }
                        }
                    }
                    return Err(vault_error());
                },
            }
            index = index + 1;
        }
        let manifest = manifest_string(n);
        let ghost written = self.entries();
        let ghost prev = self.vault;
        match self.vault.store(key, manifest.as_str()) {
            Ok(()) => {
                proof {
                    if old(self).steady() {
                        crate::vault::lemma_same_terms_trans(old(self).vault, prev, self.vault);
                        assert(old(self).accepts(key@, manifest_text(plan.len())));
                        assert(old(self).writes_accepted(key@, secret@));
                    }
                }
                Ok(())
            },
            Err(_) => {
                proof {
                    if old(self).steady() {
                        crate::vault::lemma_same_terms_trans(old(self).vault, prev, self.vault);
                        assert(!old(self).writes_accepted(key@, secret@));
                    }
                }
                let ghost mid = self.vault;
                self.rollback_chunks(key, n);
                proof {
                    if old(self).faithful() {
                        lemma_with_chunks_same_except(start, key@, plan, n as nat);
                        lemma_same_except_trans(start, written, self.entries(), key@);
                    }
                    if old(self).steady() {
                        crate::vault::lemma_same_terms_trans(old(self).vault, mid, self.vault);
                        lemma_rollback(start, key@, plan, n as nat, n as nat);
                        if old(self).chunks_released(key@, plan.len()) {
                            assert forall|i: nat| i < n implies #[trigger] mid.releases(chunk_key_text(key@, i)) by {
                                assert(old(self).releases(chunk_key_text(key@, i)));
                            }
                        }
                    }
                }
                Err(vault_error())
            },
        }
    }

    /// Reads the secret stored under `key`: `None` when nothing is stored, the
    /// vault error when the vault fails or a session's chunks are unreadable.
    /// A read never answers with anything but what the vault holds.
    pub fn get(&self, key: &str) -> (r: Result<Option<String>, AppError>)
        ensures
            r matches Err(e) ==> is_vault_error(e),
            self.faithful() && r is Ok ==> vault_reading(self.entries(), key@) == Some(opt_view(r->Ok_0)),
            self.steady() && !self.available() ==> r is Err,
            self.steady() && self.available() ==> match vault_reading(self.entries(), key@) {
                Some(v) => r matches Ok(o) && opt_view(o) == v,
                None => r is Err,
            },
    {
        let value = match self.vault.get(key) {
            Ok(v) => v,
            Err(VaultError::NoEntry) => {
                return Ok(None);
            },
            Err(_) => {
                return Err(vault_error());
            },
        };
        if !is_identity_session(key) {
            return Ok(Some(value));
        }
        let count = chunk_count(value.as_str())?;
        let mut secret = String::new();
        let mut index: usize = 0;
        while index < count
            invariant
                index <= count,
                is_session_key(key@),
                self.steady() ==> self.available(),
                self.faithful() ==> self.entries().contains_key(key@) && manifest_count(
                    self.entries()[key@],
                ) == Some(count as nat),
                self.faithful() ==> chunks_readable(self.entries(), key@, index as nat),
                self.faithful() ==> secret@ == joined_chunks(self.entries(), key@, index as nat),
            decreases count - index,
        {
            let ck = chunk_key(key, index);
            let part = match self.vault.get(ck.as_str()) {
                Ok(p) => p,
                Err(_) => {
                    assert(self.steady() ==> !self.entries().contains_key(
                        chunk_key_text(key@, index as nat),
                    ));
                    assert(self.steady() ==> !chunks_readable(self.entries(), key@, count as nat));
                    return Err(vault_error());
                },
            };
            if utf16_exceeds(&chars_of(part.as_str()), CHUNK_UTF16_LIMIT) {
                assert(self.faithful() ==> self.entries().contains_key(
                    chunk_key_text(key@, index as nat),
                ) && utf16_len(self.entries()[chunk_key_text(key@, index as nat)]) > CHUNK_UTF16_LIMIT);
                assert(self.faithful() ==> !chunks_readable(self.entries(), key@, count as nat));
                return Err(vault_error());
            }
            secret.append(part.as_str());
            proof {
                if self.faithful() {
                    assert(self.entries().contains_key(chunk_key_text(key@, index as nat)));
                    assert(utf16_len(self.entries()[chunk_key_text(key@, index as nat)]) <= CHUNK_UTF16_LIMIT);
                    assert forall|i: nat| i < index + 1 implies #[trigger] self.entries().contains_key(
                        chunk_key_text(key@, i),
                    ) && utf16_len(self.entries()[chunk_key_text(key@, i)]) <= CHUNK_UTF16_LIMIT by {
                        if i < index {
                            assert(self.entries().contains_key(chunk_key_text(key@, i)));
                        }
                    }
                    assert(chunks_readable(self.entries(), key@, (index + 1) as nat));
                    assert(secret@ == joined_chunks(self.entries(), key@, (index + 1) as nat));
                }
            }
            index = index + 1;
        }
        Ok(Some(secret))
    }

    /// Deletes the secret under `key`. For a session reference the chunks go
    /// first; the manifest stays when a chunk cannot be deleted, so that a
    /// retry still knows every chunk key. Any vault failure is the vault error.
    pub fn delete(&mut self, key: &str) -> (r: Result<(), AppError>)
        ensures
            final(self).faithful() == old(self).faithful(),
            final(self).steady() == old(self).steady(),
            old(self).steady() ==> final(self).same_terms(old(self)),
            r matches Err(e) ==> is_vault_error(e),
            old(self).faithful() && r is Ok ==> deletable(old(self).entries(), key@)
                && final(self).entries() == deleted(old(self).entries(), key@),
            old(self).faithful() && r is Err ==> {
                &&& final(self).entries().contains_key(key@) == old(self).entries().contains_key(key@)
                &&& old(self).entries().contains_key(key@) ==> final(self).entries()[key@] == old(
                    self,
                ).entries()[key@]
                &&& exists|m: nat|
                    m <= manifest_chunks(old(self).entries(), key@) && final(self).entries()
                        == #[trigger] without_chunks(old(self).entries(), key@, m)
            },
            old(self).reliable() ==> (r is Ok <==> deletable(old(self).entries(), key@)),
            old(self).steady() && !old(self).available() ==> r is Err && final(self).entries() == old(
                self,
            ).entries(),
            old(self).steady() && old(self).available() && !is_session_key(key@) ==> (r is Ok <==> old(
                self,
            ).releases(key@)),
            old(self).steady() && old(self).available() && is_session_key(key@) ==> (r is Ok <==> (
            deletable(old(self).entries(), key@) && (old(self).entries().contains_key(key@) ==> old(
                self,
            ).chunks_released(key@, manifest_chunks(old(self).entries(), key@)) && old(self).releases(
                key@,
            )))),
    {
        proof {
            lemma_key_not_own_chunk(key@);
            lemma_without_chunks(old(self).entries(), key@, 0, key@);
        }
        let ghost start = self.entries();
        if is_identity_session(key) {
            match self.vault.get(key) {
                Ok(manifest) => {
                    let count = chunk_count(manifest.as_str())?;
                    let mut index: usize = 0;
                    while index < count
                        invariant
                            index <= count,
                            is_session_key(key@),
                            start == old(self).entries(),
                            self.faithful() == old(self).faithful(),
                            self.steady() == old(self).steady(),
                            old(self).steady() ==> crate::vault::same_terms(old(self).vault, self.vault),
                            old(self).steady() ==> old(self).available(),
                            old(self).faithful() ==> start.contains_key(key@) && manifest_count(start[key@])
                                == Some(count as nat) && manifest_chunks(start, key@) == count,
                            old(self).faithful() ==> self.entries() == without_chunks(start, key@, index as nat),
                            old(self).steady() ==> old(self).chunks_released(key@, index as nat),
                            !is_chunk_key_of(key@, key@),
                        decreases count - index,
                    {
                        let ck = chunk_key(key, index);
                        let ghost prev = self.vault;
                        match self.vault.delete(ck.as_str()) {
                            Ok(()) | Err(VaultError::NoEntry) => {
                                proof {
                                    if old(self).faithful() {
                                        assert(self.entries() =~= without_chunks(start, key@, (index + 1) as nat));
                                    }
                                    if old(self).steady() {
                                        crate::vault::lemma_same_terms_trans(old(self).vault, prev, self.vault);
                                        assert(old(self).releases(chunk_key_text(key@, index as nat)));
                                        assert forall|i: nat| i < index + 1 implies #[trigger] old(self).releases(chunk_key_text(key@, i)) by {
                                            if i < index {
                                                assert(old(self).chunks_released(key@, index as nat));
                                            }
                                        }
                                    }
                                }
                            },
                            Err(_) => {
                                proof {
                                    if old(self).faithful() {
                                        lemma_without_chunks(start, key@, index as nat, key@);
                                        assert forall|j: nat| j < index implies key@ != #[trigger] chunk_key_text(key@, j) by {
                                            lemma_chunk_keys_distinct(key@, j, j);
                                        }
                                    }
                                    if old(self).steady() {
                                        crate::vault::lemma_same_terms_trans(old(self).vault, prev, self.vault);
                                        assert(!old(self).releases(chunk_key_text(key@, index as nat)));
                                    }
                                }
                                return Err(vault_error());
                            },
                        }
                        index = index + 1;
                    }
                },
                Err(VaultError::NoEntry) => {
                    return Ok(());
                },
                Err(_) => {
                    return Err(vault_error());
                },
            }
        }
        let ghost prev = self.vault;
        let ghost before = self.entries();
        proof {
            if old(self).reliable() {
                assert(old(self).releases(key@));
            }
        }
        match self.vault.delete(key) {
            Ok(()) | Err(VaultError::NoEntry) => {
                proof {
                    if old(self).steady() {
                        crate::vault::lemma_same_terms_trans(old(self).vault, prev, self.vault);
                    }
                    if old(self).faithful() {
                        assert(self.entries() =~= before.remove(key@));
                    }
                }
                Ok(())
            },
            Err(_) => {
                proof {
                    if old(self).steady() {
                        crate::vault::lemma_same_terms_trans(old(self).vault, prev, self.vault);
                    }
                    if old(self).faithful() && is_session_key(key@) {
                        let n = manifest_count(start[key@])->0;
                        lemma_without_chunks(start, key@, n, key@);
                        assert forall|j: nat| j < n implies key@ != #[trigger] chunk_key_text(key@, j) by {
                            lemma_chunk_keys_distinct(key@, j, j);
                        }
                    }
                }
                Err(vault_error())
            },
        }
    }

    /// Whether a secret is stored under `key` and can be read.
    pub fn secret_exists(&self, key: &str) -> (r: bool)
        ensures
            self.faithful() && r ==> vault_reading(self.entries(), key@) matches Some(Some(_)),
            self.steady() && self.available() ==> r == (vault_reading(self.entries(), key@) matches Some(
                Some(_),
            )),
            self.steady() && !self.available() ==> !r,
    {
        matches!(self.get(key), Ok(Some(_)))
    }
}

impl KeychainStorage<MemoryVault> {
    /// Storage in a fresh in-memory vault.
    pub fn for_test() -> (s: Self)
        ensures
            s.reliable(),
            s.entries() == Map::<Seq<char>, Seq<char>>::empty(),
    {
        Self::with_vault(MemoryVault::new())
    }
}

} // verus!
