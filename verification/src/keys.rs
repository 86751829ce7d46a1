//! The keys that vaults are encrypted with.
//!
//! A vault is keyed by the machine it was made on, or by a passphrase. Older vaults carry keys
//! that were derived otherwise; those derivations are kept so that such vaults can be opened and
//! given a current key.
use crate::embedding::byte_of;
use crate::hex::{encode, hex_of, sha256, sha256_of};
use crate::text::{
    byte_len, chars_of, concat, concat3, contains, occurs_in, opt_text, pieces, split_on,
    split_words, string_of, trim, trimmed, views, words,
};
use std::collections::hash_map::DefaultHasher;
use std::hash::Hasher;
use vstd::prelude::*;
use vstd::std_specs::hash::DefaultHasherAdditionalSpecFns;
use vstd::utf8::encode_utf8;

verus! {

/// The salt of keys that are derived from the machine.
pub const APP_SALT: &'static str = "axiom-engram-vault-v1";

/// What the salt of keys that are derived from a passphrase is made of, where a vault has no salt
/// of its own.
pub const APP_SALT_V2: &'static str = "axiom-engram-vault-v2";

/// The memory that Argon2id takes, in kibibytes.
pub const ARGON2_MEMORY: u32 = 65536;

/// The passes that Argon2id makes.
pub const ARGON2_ITERATIONS: u32 = 3;

/// The lanes that Argon2id computes.
pub const ARGON2_PARALLELISM: u32 = 4;

/// What stands for the machine where nothing identifies it.
pub const NO_MACHINE_ID: &'static str = "axiom-fallback-key-no-machine-id";

/// What `argon2::Argon2::hash_password_into` computes, for Argon2id of version 0x13 and 32 bytes,
/// from a password, a salt, and the memory, the passes and the lanes.
pub uninterp spec fn argon2id_of(
    password: Seq<u8>,
    salt: Seq<u8>,
    memory: u32,
    iterations: u32,
    parallelism: u32,
) -> Seq<u8>;

/// `argon2::Argon2::hash_password_into`, for Argon2id of version 0x13 without a secret. With
/// these parameters, a salt of 16 bytes and a password of fewer than 2^32 bytes it succeeds; the
/// result is the named hash, 32 bytes long.
#[verifier::external_body]
fn argon2id(
    password: &[u8],
    salt: &[u8],
    memory: u32,
    iterations: u32,
    parallelism: u32,
) -> (r: Vec<u8>)
    requires
        password@.len() <= 0xffff_ffff,
        salt@.len() == 16,
        memory == ARGON2_MEMORY,
        iterations == ARGON2_ITERATIONS,
        parallelism == ARGON2_PARALLELISM,
    ensures
        r@ == argon2id_of(password@, salt@, memory, iterations, parallelism),
        r@.len() == 32,
{
    let params = argon2::Params::new(memory, iterations, parallelism, Some(32)).unwrap();
    let context = argon2::Argon2::new(argon2::Algorithm::Argon2id, argon2::Version::V0x13, params);
    let mut out = vec![0u8; 32];
    context.hash_password_into(password, salt, &mut out).unwrap();
    out
}

/// `uuid::Uuid::new_v4` and its `as_bytes`. Every outcome has 16 bytes, of which the seventh
/// carries the version and the ninth the variant; the others are left to chance.
#[verifier::external_body]
fn random_bytes() -> (r: Vec<u8>)
    ensures
        r@.len() == 16,
        r@[6] / 16 == 4,
        r@[8] / 64 == 2,
{
    uuid::Uuid::new_v4().as_bytes().to_vec()
}

/// An identifier and the salt, with a colon between them.
pub open spec fn salted(id: Seq<char>) -> Seq<char> {
    id + ":"@ + APP_SALT@
}

/// The key of a vault that belongs to a machine.
pub open spec fn vault_key_of(machine_id: Seq<char>) -> Seq<char> {
    hex_of(sha256_of(encode_utf8(salted(machine_id))))
}

/// The key of a vault that belongs to a machine.
pub fn derive_vault_key(machine_id: &str) -> (r: String)
    ensures
        r@ == vault_key_of(machine_id@),
        r@.len() == 64,
{
    let input = concat3(machine_id, ":", APP_SALT);
    let digest = sha256(input.as_str().as_bytes());
    encode(digest.as_slice())
}

/// The standard library's default hash of a text.
pub open spec fn sip_of(s: Seq<char>) -> u64 {
    DefaultHasher::spec_finish(seq![encode_utf8(s), seq![0xffu8]])
}

fn sip(s: &str) -> (r: u64)
    ensures
        r == sip_of(s@),
{
    let mut hasher = DefaultHasher::new();
    hasher.write(s.as_bytes());
    let end: [u8; 1] = [0xff];
    hasher.write(end.as_slice());
    let ghost writes = hasher@;
    proof {
        assert(end@ =~= seq![0xffu8]);
        assert(writes =~= seq![encode_utf8(s@), seq![0xffu8]]);
    }
    hasher.finish()
}

/// The bytes of a number, the highest first.
pub open spec fn big_endian(n: u64) -> Seq<u8> {
    Seq::new(8, |k: int| byte_of(n, 7 - k))
}

/// The bytes of a number, the highest first.
fn big_endian_bytes(n: u64) -> (r: Vec<u8>)
    ensures
        r@ == big_endian(n),
{
    let mut v: Vec<u8> = Vec::new();
    let mut k: u64 = 0;
    while k < 8
        invariant
            k <= 8,
            v@.len() == k,
            forall|j: int| 0 <= j < k ==> v@[j] == byte_of(n, 7 - j),
        decreases 8 - k,
    {
        v.push(((n >> (8 * (7 - k))) & 0xff) as u8);
        k += 1;
    }
    assert(v@ =~= big_endian(n));
    v
}

/// The key of a vault from before keys were derived with SHA-256: four default hashes, as 16
/// hexadecimal digits each.
pub open spec fn legacy_key_of(machine_id: Seq<char>) -> Seq<char> {
    let input = salted(machine_id);
    hex_of(big_endian(sip_of(input))) + hex_of(big_endian(sip_of(input + "b"@))) + hex_of(
        big_endian(sip_of(input + "c"@)),
    ) + hex_of(big_endian(sip_of(input + "d"@)))
}

/// The key of a vault from before keys were derived with SHA-256.
pub fn derive_legacy_key(machine_id: &str) -> (r: String)
    ensures
        r@ == legacy_key_of(machine_id@),
        r@.len() == 64,
{
    let input = concat3(machine_id, ":", APP_SALT);
    let a = encode(big_endian_bytes(sip(input.as_str())).as_slice());
    let with_b = concat(input.as_str(), "b");
    let b = encode(big_endian_bytes(sip(with_b.as_str())).as_slice());
    let with_c = concat(input.as_str(), "c");
    let c = encode(big_endian_bytes(sip(with_c.as_str())).as_slice());
    let with_d = concat(input.as_str(), "d");
    let d = encode(big_endian_bytes(sip(with_d.as_str())).as_slice());
    let head = concat3(a.as_str(), b.as_str(), c.as_str());
    concat(head.as_str(), d.as_str())
}

/// The salt for a passphrase: the first 16 bytes of the vault's own salt where it has that many,
/// else those of a digest that is the same for all vaults.
pub open spec fn salt_of(stored: Option<Seq<u8>>) -> Seq<u8> {
    match stored {
        Some(data) if data.len() >= 16 => data.take(16),
        _ => sha256_of(encode_utf8(APP_SALT_V2@)).take(16),
    }
}

fn first_16(data: &Vec<u8>) -> (r: Vec<u8>)
    requires
        data@.len() >= 16,
    ensures
        r@ == data@.take(16),
{
    let mut v: Vec<u8> = Vec::new();
    let mut i: usize = 0;
    while i < 16
        invariant
            i <= 16,
            data@.len() >= 16,
            v@ == data@.take(i as int),
        decreases 16 - i,
    {
        v.push(data[i]);
        assert(data@.take(i + 1) =~= data@.take(i as int).push(data@[i as int]));
        i += 1;
    }
    v
}

/// The salt for a passphrase.
pub fn choose_salt(stored: &Option<Vec<u8>>) -> (r: Vec<u8>)
    ensures
        r@ == salt_of(opt_bytes(*stored)),
        r@.len() == 16,
{
    if let Some(data) = stored {
        if data.len() >= 16 {
            return first_16(data);
        }
    }
    let digest = sha256(APP_SALT_V2.as_bytes());
    first_16(&digest)
}

/// The bytes that an optional vector holds.
pub open spec fn opt_bytes(data: Option<Vec<u8>>) -> Option<Seq<u8>> {
    match data {
        Some(v) => Some(v@),
        None => None,
    }
}

/// The key of a vault that belongs to a passphrase.
pub open spec fn passphrase_key_of(passphrase: Seq<char>, stored: Option<Seq<u8>>) -> Seq<char> {
    hex_of(
        argon2id_of(
            encode_utf8(passphrase),
            salt_of(stored),
            ARGON2_MEMORY,
            ARGON2_ITERATIONS,
            ARGON2_PARALLELISM,
        ),
    )
}

/// The key of a vault that belongs to a passphrase.
pub fn derive_passphrase_key(passphrase: &str, stored: &Option<Vec<u8>>) -> (r: String)
    requires
        byte_len(passphrase@) <= 0xffff_ffff,
    ensures
        r@ == passphrase_key_of(passphrase@, opt_bytes(*stored)),
        r@.len() == 64,
{
    let salt = choose_salt(stored);
    let hash = argon2id(
        passphrase.as_bytes(),
        salt.as_slice(),
        ARGON2_MEMORY,
        ARGON2_ITERATIONS,
        ARGON2_PARALLELISM,
    );
    encode(hash.as_slice())
}

/// The key of a vault that belongs to a passphrase, from before such keys were derived with
/// Argon2id.
pub open spec fn passphrase_key_sha256_of(passphrase: Seq<char>) -> Seq<char> {
    hex_of(sha256_of(encode_utf8(salted(passphrase))))
}

/// The key of a vault that belongs to a passphrase, from before such keys were derived with
/// Argon2id.
pub fn derive_passphrase_key_sha256(passphrase: &str) -> (r: String)
    ensures
        r@ == passphrase_key_sha256_of(passphrase@),
        r@.len() == 64,
{
    let input = concat3(passphrase, ":", APP_SALT);
    let digest = sha256(input.as_str().as_bytes());
    encode(digest.as_slice())
}

/// A salt for a vault: none where the vault has one already, else 16 random bytes.
pub fn create_per_vault_salt(exists: bool) -> (r: Option<Vec<u8>>)
    ensures
        r is None <==> exists,
        r is Some ==> r->0@.len() == 16,
{
    if exists {
        None
    } else {
        Some(random_bytes())
    }
}

/// The first candidate that is not blank, without the white space around it.
pub open spec fn machine_id_from(candidates: Seq<Option<Seq<char>>>) -> Seq<char>
    decreases candidates.len(),
{
    if candidates.len() == 0 {
        NO_MACHINE_ID@
    } else if candidates[0] is Some && trimmed(candidates[0]->0).len() > 0 {
        trimmed(candidates[0]->0)
    } else {
        machine_id_from(candidates.drop_first())
    }
}

/// What a list of optional texts says.
pub open spec fn opt_texts(v: Seq<Option<String>>) -> Seq<Option<Seq<char>>> {
    v.map_values(|s: Option<String>| opt_text(s))
}

/// The machine's identifier: the first candidate that is not blank, or what stands for it where
/// there is none.
pub fn read_machine_id(candidates: &Vec<Option<String>>) -> (r: String)
    ensures
        r@ == machine_id_from(opt_texts(candidates@)),
{
    let mut i: usize = 0;
    let ghost all = opt_texts(candidates@);
    proof {
        assert(all.skip(0) =~= all);
    }
    while i < candidates.len()
        invariant
            i <= candidates@.len(),
            all == opt_texts(candidates@),
            machine_id_from(all.skip(i as int)) == machine_id_from(all),
        decreases candidates@.len() - i,
    {
        proof {
            assert(all.skip(i as int)[0] == all[i as int]);
            assert(all.skip(i as int).drop_first() =~= all.skip(i + 1));
        }
        if let Some(text) = &candidates[i] {
            let cs = chars_of(text.as_str());
            let id = trim(cs.as_slice());
            if id.len() > 0 {
                return string_of(id.as_slice());
            }
        }
        i += 1;
    }
    proof {
        assert(all.skip(all.len() as int) =~= Seq::empty());
    }
    NO_MACHINE_ID.to_string()
}

/// The text between the last two quotation marks, if there are two.
pub open spec fn last_quoted(line: Seq<char>) -> Option<Seq<char>> {
    let parts = pieces(line, "\""@);
    if parts.len() >= 3 {
        Some(parts[parts.len() - 2])
    } else {
        None
    }
}

/// The quoted value of a line that mentions the platform's UUID, without white space around it;
/// none where it is blank.
#[verifier::opaque]
pub open spec fn uuid_in_line(line: Seq<char>) -> Option<Seq<char>> {
    match last_quoted(line) {
        Some(value) if occurs_in(line, "IOPlatformUUID"@) && trimmed(value).len() > 0 => Some(
            trimmed(value),
        ),
        _ => None,
    }
}

/// The platform's UUID in the first line that gives it.
pub open spec fn platform_uuid_in(lines: Seq<Seq<char>>) -> Option<Seq<char>>
    decreases lines.len(),
{
    if lines.len() == 0 {
        None
    } else {
        match uuid_in_line(lines[0]) {
            Some(uuid) => Some(uuid),
            None => platform_uuid_in(lines.drop_first()),
        }
    }
}

fn quoted_value(line: &Vec<char>) -> (r: Option<Vec<char>>)
    ensures
        match r {
            Some(v) => last_quoted(line@) == Some(v@),
            None => last_quoted(line@) is None,
        },
{
    let mark = chars_of("\"");
    proof {
        reveal_strlit("\"");
    }
    let parts = split_on(line.as_slice(), mark.as_slice());
    proof {
        assert(views(parts@).len() == parts@.len());
    }
    if parts.len() >= 3 {
        let k: usize = parts.len() - 2;
        assert(views(parts@)[k as int] == parts@[k as int]@);
        Some(crate::text::slice(parts[k].as_slice(), 0, parts[k].len()))
    } else {
        None
    }
}

fn read_uuid_line(line: &Vec<char>) -> (r: Option<Vec<char>>)
    ensures
        match r {
            Some(v) => uuid_in_line(line@) == Some(v@),
            None => uuid_in_line(line@) is None,
        },
{
    proof {
        reveal(uuid_in_line);
    }
    let name = chars_of("IOPlatformUUID");
    if !contains(line.as_slice(), name.as_slice()) {
        return None;
    }
    match quoted_value(line) {
        Some(value) => {
            let uuid = trim(value.as_slice());
            if uuid.len() > 0 {
                Some(uuid)
            } else {
                None
            }
        },
        None => None,
    }
}

fn split_lines(output: &str) -> (r: Vec<Vec<char>>)
    ensures
        views(r@) == pieces(output@, "\n"@),
{
    let all = chars_of(output);
    let end = chars_of("\n");
    proof {
        reveal_strlit("\n");
    }
    split_on(all.as_slice(), end.as_slice())
}

fn first_uuid(lines: &Vec<Vec<char>>) -> (r: Option<Vec<char>>)
    ensures
        match r {
            Some(v) => platform_uuid_in(views(lines@)) == Some(v@),
            None => platform_uuid_in(views(lines@)) is None,
        },
{
    let ghost ls = views(lines@);
    let mut i: usize = 0;
    proof {
        assert(ls.skip(0) =~= ls);
    }
    while i < lines.len()
        invariant
            i <= lines@.len(),
            ls == views(lines@),
            platform_uuid_in(ls.skip(i as int)) == platform_uuid_in(ls),
        decreases lines@.len() - i,
    {
        proof {
            assert(ls.skip(i as int)[0] == lines@[i as int]@);
            assert(ls.skip(i as int).drop_first() =~= ls.skip(i + 1));
        }
        let found = read_uuid_line(&lines[i]);
        if found.is_some() {
            return found;
        }
        i += 1;
    }
    proof {
        assert(ls.skip(ls.len() as int) =~= Seq::empty());
    }
    None
}

/// The platform's UUID in what `ioreg` prints.
pub fn platform_uuid(output: &str) -> (r: Option<String>)
    ensures
        opt_text(r) == platform_uuid_in(pieces(output@, "\n"@)),
{
    let lines = split_lines(output);
    match first_uuid(&lines) {
        Some(uuid) => Some(string_of(uuid.as_slice())),
        None => None,
    }
}

/// The last word of the first line that mentions the machine's GUID.
pub open spec fn machine_guid_in(lines: Seq<Seq<char>>) -> Option<Seq<char>>
    decreases lines.len(),
{
    if lines.len() == 0 {
        None
    } else if occurs_in(lines[0], "MachineGuid"@) && words(lines[0]).len() > 0 {
        Some(words(lines[0]).last())
    } else {
        machine_guid_in(lines.drop_first())
    }
}

/// The machine's GUID in what `reg query` prints.
pub fn machine_guid(output: &str) -> (r: Option<String>)
    ensures
        opt_text(r) == machine_guid_in(pieces(output@, "\n"@)),
{
    let lines = split_lines(output);
    let name = chars_of("MachineGuid");
    let ghost ls = views(lines@);
    let mut i: usize = 0;
    proof {
        assert(ls.skip(0) =~= ls);
    }
    while i < lines.len()
        invariant
            i <= lines@.len(),
            ls == views(lines@),
            ls == pieces(output@, "\n"@),
            name@ == "MachineGuid"@,
            machine_guid_in(ls.skip(i as int)) == machine_guid_in(ls),
        decreases lines@.len() - i,
    {
        proof {
            assert(ls.skip(i as int)[0] == ls[i as int]);
            assert(ls[i as int] == lines@[i as int]@);
            assert(ls.skip(i as int).drop_first() =~= ls.skip(i + 1));
        }
        if contains(lines[i].as_slice(), name.as_slice()) {
            let list = split_words(lines[i].as_slice());
            assert(views(list@).len() == list@.len());
            if list.len() > 0 {
                let k: usize = list.len() - 1;
                assert(views(list@)[k as int] == list@[k as int]@);
                return Some(string_of(list[k].as_slice()));
            }
        }
        i += 1;
    }
    proof {
        assert(ls.skip(ls.len() as int) =~= Seq::empty());
    }
    None
}

/// The keys of a vault: that of a machine is the SHA-256 digest of its identifier with the
/// application's salt behind a colon, in hexadecimal; so was that of a passphrase once. Now the
/// latter is what Argon2id makes of it with 64 MiB, three passes and four lanes, and the salt of
/// the vault.
pub proof fn law_keys_are_derived(
    machine_id: Seq<char>,
    passphrase: Seq<char>,
    stored: Option<Seq<u8>>,
)
    ensures
        vault_key_of(machine_id) == hex_of(
            sha256_of(encode_utf8(machine_id + ":"@ + "axiom-engram-vault-v1"@)),
        ),
        passphrase_key_sha256_of(passphrase) == hex_of(
            sha256_of(encode_utf8(passphrase + ":"@ + "axiom-engram-vault-v1"@)),
        ),
        passphrase_key_of(passphrase, stored) == hex_of(
            argon2id_of(encode_utf8(passphrase), salt_of(stored), 65536, 3, 4),
        ),
        legacy_key_of(machine_id) == {
            let s = machine_id + ":"@ + "axiom-engram-vault-v1"@;
            hex_of(big_endian(sip_of(s))) + hex_of(big_endian(sip_of(s + "b"@))) + hex_of(
                big_endian(sip_of(s + "c"@)),
            ) + hex_of(big_endian(sip_of(s + "d"@)))
        },
{
}

/// A vault's own salt is used as it is stored, its first sixteen bytes; one that is missing or too
/// short gives way to the salt that all old vaults share.
pub proof fn law_vaults_use_their_own_salt(data: Seq<u8>)
    ensures
        data.len() >= 16 ==> salt_of(Some(data)).len() == 16 && forall|i: int|
            0 <= i < 16 ==> #[trigger] salt_of(Some(data))[i] == data[i],
        data.len() < 16 ==> salt_of(Some(data)) == salt_of(None),
        salt_of(None) == sha256_of(encode_utf8("axiom-engram-vault-v2"@)).take(16),
{
}

/// Numbers are written with their highest byte first.
pub proof fn law_big_endian_starts_high(n: u64)
    ensures
        big_endian(n).len() == 8,
        forall|k: int| 0 <= k < 8 ==> #[trigger] big_endian(n)[k] == byte_of(n, 7 - k),
{
}

/// A machine is known by the first identifier that is not blank, without the white space around
/// it; where there is none, by one that all such machines share.
pub proof fn law_first_identifier_counts(candidates: Seq<Option<Seq<char>>>, k: int)
    requires
        0 <= k <= candidates.len(),
        forall|i: int|
            0 <= i < k ==> (#[trigger] candidates[i]) is None || trimmed(candidates[i]->0).len()
                == 0,
        k < candidates.len() ==> candidates[k] is Some && trimmed(candidates[k]->0).len() > 0,
    ensures
        machine_id_from(candidates) == if k < candidates.len() {
            trimmed(candidates[k]->0)
        } else {
            "axiom-fallback-key-no-machine-id"@
        },
    decreases candidates.len(),
{
    if candidates.len() > 0 && k > 0 {
        let rest = candidates.drop_first();
        assert(candidates[0] is None || trimmed(candidates[0]->0).len() == 0);
        assert forall|i: int| 0 <= i < k - 1 implies (#[trigger] rest[i]) is None || trimmed(
            rest[i]->0,
        ).len() == 0 by {
            assert(rest[i] == candidates[i + 1]);
        }
        law_first_identifier_counts(rest, k - 1);
    }
}

/// The identifier of a platform is what stands between the last two quotes of the first line that
/// names it and has such a value.
pub proof fn law_first_platform_uuid_counts(lines: Seq<Seq<char>>, k: int)
    requires
        0 <= k < lines.len(),
        forall|i: int| 0 <= i < k ==> !occurs_in(#[trigger] lines[i], "IOPlatformUUID"@),
        occurs_in(lines[k], "IOPlatformUUID"@),
        pieces(lines[k], "\""@).len() >= 3,
        trimmed(pieces(lines[k], "\""@)[pieces(lines[k], "\""@).len() - 2]).len() > 0,
    ensures
        platform_uuid_in(lines) == Some(
            trimmed(pieces(lines[k], "\""@)[pieces(lines[k], "\""@).len() - 2]),
        ),
    decreases lines.len(),
{
    reveal(uuid_in_line);
    if k > 0 {
        let rest = lines.drop_first();
        assert(!occurs_in(lines[0], "IOPlatformUUID"@));
        assert forall|i: int| 0 <= i < k - 1 implies !occurs_in(
            #[trigger] rest[i],
            "IOPlatformUUID"@,
        ) by {
            assert(rest[i] == lines[i + 1]);
        }
        law_first_platform_uuid_counts(rest, k - 1);
    }
}

/// The identifier of a machine is the last word of the first line that names it.
pub proof fn law_first_machine_guid_counts(lines: Seq<Seq<char>>, k: int)
    requires
        0 <= k < lines.len(),
        forall|i: int| 0 <= i < k ==> !occurs_in(#[trigger] lines[i], "MachineGuid"@),
        occurs_in(lines[k], "MachineGuid"@),
        words(lines[k]).len() > 0,
    ensures
        machine_guid_in(lines) == Some(words(lines[k])[words(lines[k]).len() - 1]),
    decreases lines.len(),
{
    if k > 0 {
        let rest = lines.drop_first();
        assert(!occurs_in(lines[0], "MachineGuid"@));
        assert forall|i: int| 0 <= i < k - 1 implies !occurs_in(#[trigger] rest[i], "MachineGuid"@)
            by {
            assert(rest[i] == lines[i + 1]);
        }
        law_first_machine_guid_counts(rest, k - 1);
    }
}

/// What is said of texts that may be missing is said of each of them, in their order.
pub proof fn law_candidates_are_seen_as_they_are(v: Seq<Option<String>>)
    ensures
        opt_texts(v).len() == v.len(),
        forall|i: int|
            0 <= i < v.len() ==> (#[trigger] opt_texts(v)[i] is Some <==> v[i] is Some) && (v[i]
                is Some ==> opt_texts(v)[i]->0 == (v[i]->0)@),
{
}

} // verus!
