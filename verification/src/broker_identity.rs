use vstd::prelude::*;

use crate::digest::{hex_of, is_lower_hex_digit, lemma_hex_of_shape, push_hex, sha256, sha256_of};

verus! {

/// The largest privilege broker executable whose identity is taken, in bytes.
pub const MAX_PRIVILEGE_BROKER_BYTES: u64 = 134_217_728;

/// The little-endian 16-bit number at `offset`.
pub open spec fn le_u16(b: Seq<u8>, offset: int) -> u16 {
    (b[offset] + 256 * b[offset + 1]) as u16
}

/// The little-endian 32-bit number at `offset`.
pub open spec fn le_u32(b: Seq<u8>, offset: int) -> u32 {
    (b[offset] + 256 * b[offset + 1] + 65536 * b[offset + 2] + 16777216 * b[offset + 3]) as u32
}

/// The 16-bit number at `offset`, when the bytes reach that far.
pub open spec fn u16_at(b: Seq<u8>, offset: int) -> Option<u16> {
    if 0 <= offset && offset + 2 <= b.len() {
        Some(le_u16(b, offset))
    } else {
        None
    }
}

/// The 32-bit number at `offset`, when the bytes reach that far.
pub open spec fn u32_at(b: Seq<u8>, offset: int) -> Option<u32> {
    if 0 <= offset && offset + 4 <= b.len() {
        Some(le_u32(b, offset))
    } else {
        None
    }
}

/// Reads a little-endian 16-bit number at `offset`.
pub fn read_u16_le(bytes: &[u8], offset: usize) -> (value: Option<u16>)
    ensures
        value == u16_at(bytes@, offset as int),
{
    if offset <= bytes.len() && bytes.len() - offset >= 2 {
        Some(bytes[offset] as u16 + (bytes[offset + 1] as u16) * 256)
    } else {
        None
    }
}

/// Reads a little-endian 32-bit number at `offset`.
pub fn read_u32_le(bytes: &[u8], offset: usize) -> (value: Option<u32>)
    ensures
        value == u32_at(bytes@, offset as int),
{
    if offset <= bytes.len() && bytes.len() - offset >= 4 {
        Some(
            bytes[offset] as u32 + (bytes[offset + 1] as u32) * 256 + (bytes[offset + 2] as u32)
                * 65536 + (bytes[offset + 3] as u32) * 16777216,
        )
    } else {
        None
    }
}

/// The bytes with `count` of them set to zero from `start` on.
pub open spec fn zeroed(b: Seq<u8>, start: int, count: int) -> Seq<u8> {
    Seq::new(b.len(), |i: int| if start <= i < start + count { 0u8 } else { b[i] })
}

fn zero_range(bytes: &mut Vec<u8>, start: usize, count: usize)
    requires
        start + count <= old(bytes).len(),
    ensures
        final(bytes)@ == zeroed(old(bytes)@, start as int, count as int),
{
    let mut i: usize = 0;
    while i < count
        invariant
            start + count <= bytes.len(),
            bytes@.len() == old(bytes)@.len(),
            i <= count,
            forall|j: int|
                0 <= j < bytes@.len() ==> #[trigger] bytes@[j] == (if start <= j < start + i {
                    0u8
                } else {
                    old(bytes)@[j]
                }),
        decreases count - i,
    {
        bytes.set(start + i, 0);
        i = i + 1;
    }
    assert(bytes@ =~= zeroed(old(bytes)@, start as int, count as int));
}

/// The bytes without the signature blob of `size` bytes at `offset`; unchanged when there is
/// no blob or it does not lie inside the bytes.
pub open spec fn blob_removed(b: Seq<u8>, offset: int, size: int) -> Seq<u8> {
    if offset == 0 || size == 0 || offset + size > b.len() {
        b
    } else {
        b.subrange(0, offset) + b.subrange(offset + size, b.len() as int)
    }
}

/// Removes a signature blob of `size` bytes at `offset`, when there is one inside the bytes.
pub fn remove_signature_blob(bytes: &mut Vec<u8>, offset: usize, size: usize)
    ensures
        final(bytes)@ == blob_removed(old(bytes)@, offset as int, size as int),
{
    if offset == 0 || size == 0 || offset > bytes.len() || size > bytes.len() - offset {
        return;
    }
    let end = offset + size;
    let mut kept: Vec<u8> = Vec::new();
    let mut i: usize = 0;
    while i < bytes.len()
        invariant
            offset + size == end,
            end <= bytes@.len(),
            i <= bytes@.len(),
            kept@ == (if i <= offset {
                bytes@.subrange(0, i as int)
            } else if i <= end {
                bytes@.subrange(0, offset as int)
            } else {
                bytes@.subrange(0, offset as int) + bytes@.subrange(end as int, i as int)
            }),
        decreases bytes@.len() - i,
    {
        if i < offset || i >= end {
            kept.push(bytes[i]);
        }
        i = i + 1;
        proof {
            if i <= offset {
                assert(kept@ =~= bytes@.subrange(0, i as int));
            } else if i > end {
                assert(kept@ =~= bytes@.subrange(0, offset as int) + bytes@.subrange(end as int, i as int));
            }
        }
    }
    proof {
        if end == bytes@.len() {
            assert(bytes@.subrange(end as int, end as int) =~= Seq::<u8>::empty());
            assert(kept@ =~= bytes@.subrange(0, offset as int) + bytes@.subrange(end as int, bytes@.len() as int));
        }
    }
    *bytes = kept;
}

/// Where the fields that a signature touches lie in a PE image: the checksum, the certificate
/// table entry, and the certificate table it points to (offset and size).
pub open spec fn pe_layout(b: Seq<u8>) -> Option<(int, int, int, int)> {
    if !(b.len() >= 2 && b[0] == 0x4d && b[1] == 0x5a) {
        None
    } else {
        match u32_at(b, 0x3c) {
            None => None,
            Some(pe) => {
                let pe = pe as int;
                if !(pe + 4 <= b.len() && b[pe] == 0x50 && b[pe + 1] == 0x45 && b[pe + 2] == 0
                    && b[pe + 3] == 0) {
                    None
                } else {
                    let optional_header = pe + 24;
                    match u16_at(b, optional_header) {
                        None => None,
                        Some(magic) => {
                            let data_directory = if magic == 0x10b {
                                optional_header + 96
                            } else {
                                optional_header + 112
                            };
                            let checksum = optional_header + 64;
                            let certificate_entry = data_directory + 32;
                            if (magic != 0x10b && magic != 0x20b) || certificate_entry + 8 > b.len()
                                || checksum + 4 > b.len() {
                                None
                            } else {
                                Some(
                                    (
                                        checksum,
                                        certificate_entry,
                                        le_u32(b, certificate_entry) as int,
                                        le_u32(b, certificate_entry + 4) as int,
                                    ),
                                )
                            }
                        },
                    }
                }
            },
        }
    }
}

/// A PE image with its checksum and certificate table entry zeroed and its certificate
/// table removed.
pub open spec fn pe_normalized(b: Seq<u8>, layout: (int, int, int, int)) -> Seq<u8> {
    blob_removed(zeroed(zeroed(b, layout.0, 4), layout.1, 8), layout.2, layout.3)
}

/// Strips the Authenticode signature from a PE image; `false`, with the bytes unchanged,
/// when they are not one.
pub fn normalize_pe_authenticode(bytes: &mut Vec<u8>) -> (normalized: bool)
    ensures
        normalized == pe_layout(old(bytes)@) is Some,
        match pe_layout(old(bytes)@) {
            Some(layout) => final(bytes)@ == pe_normalized(old(bytes)@, layout),
            None => final(bytes)@ == old(bytes)@,
        },
{
    let ghost b = bytes@;
    let n = bytes.len();
    if !(n >= 2 && bytes[0] == 0x4d && bytes[1] == 0x5a) {
        return false;
    }
    let pe = match read_u32_le(bytes.as_slice(), 0x3c) {
        Some(pe) => pe as usize,
        None => {
            return false;
        },
    };
    if !(pe <= n && n - pe >= 4 && bytes[pe] == 0x50 && bytes[pe + 1] == 0x45 && bytes[pe + 2]
        == 0 && bytes[pe + 3] == 0) {
        return false;
    }
    if n - pe < 24 {
        return false;
    }
    let optional_header = pe + 24;
    let magic = match read_u16_le(bytes.as_slice(), optional_header) {
        Some(magic) => magic,
        None => {
            return false;
        },
    };
    if magic != 0x10b && magic != 0x20b {
        return false;
    }
    let directory_offset: usize = if magic == 0x10b {
        96
    } else {
        112
    };
    if n - optional_header < directory_offset + 40 || n - optional_header < 68 {
        return false;
    }
    let checksum = optional_header + 64;
    let certificate_entry = optional_header + directory_offset + 32;
    let certificate_offset = match read_u32_le(bytes.as_slice(), certificate_entry) {
        Some(v) => v as usize,
        None => 0,
    };
    let certificate_size = match read_u32_le(bytes.as_slice(), certificate_entry + 4) {
        Some(v) => v as usize,
        None => 0,
    };
    zero_range(bytes, checksum, 4);
    zero_range(bytes, certificate_entry, 8);
    remove_signature_blob(bytes, certificate_offset, certificate_size);
    true
}


/// The size of a Mach-O header: 64-bit or 32-bit, little-endian.
pub open spec fn macho_header_size(b: Seq<u8>) -> Option<int> {
    if b.len() >= 4 && b[0] == 0xcf && b[1] == 0xfa && b[2] == 0xed && b[3] == 0xfe {
        Some(32)
    } else if b.len() >= 4 && b[0] == 0xce && b[1] == 0xfa && b[2] == 0xed && b[3] == 0xfe {
        Some(28)
    } else {
        None
    }
}

/// Whether `remaining` load commands from `cursor` on are well formed: each names its size,
/// at least eight bytes, and ends within the command area.
pub open spec fn macho_commands_valid(b: Seq<u8>, cursor: int, remaining: nat, end: int) -> bool
    decreases remaining,
{
    if remaining == 0 {
        true
    } else {
        match (u32_at(b, cursor), u32_at(b, cursor + 4)) {
            (Some(_), Some(size)) => size >= 8 && cursor + size <= end && macho_commands_valid(
                b,
                cursor + size,
                (remaining - 1) as nat,
                end,
            ),
            _ => false,
        }
    }
}

/// Where the load commands of a well-formed Mach-O image start, and how many there are.
pub open spec fn macho_layout(b: Seq<u8>) -> Option<(int, nat)> {
    match (macho_header_size(b), u32_at(b, 16), u32_at(b, 20)) {
        (Some(header), Some(count), Some(size)) => if header + size <= b.len()
            && macho_commands_valid(b, header, count as nat, header + size) {
            Some((header, count as nat))
        } else {
            None
        },
        _ => None,
    }
}

/// The bytes with the data offset and size of every code signature command zeroed, from
/// `cursor` on, and the last signature blob those commands pointed to.
pub open spec fn macho_scrub(b: Seq<u8>, cursor: int, remaining: nat, signature: Option<(int, int)>) -> (
    Seq<u8>,
    Option<(int, int)>,
)
    decreases remaining,
{
    if remaining == 0 {
        (b, signature)
    } else {
        let command = match u32_at(b, cursor) {
            Some(c) => c,
            None => 0,
        };
        let size = match u32_at(b, cursor + 4) {
            Some(s) => s,
            None => 0,
        };
        if command == 0x1d && size >= 16 {
            let offset = match u32_at(b, cursor + 8) {
                Some(o) => o,
                None => 0,
            };
            let length = match u32_at(b, cursor + 12) {
                Some(l) => l,
                None => 0,
            };
            macho_scrub(
                zeroed(b, cursor + 8, 8),
                cursor + size,
                (remaining - 1) as nat,
                Some((offset as int, length as int)),
            )
        } else {
            macho_scrub(b, cursor + size, (remaining - 1) as nat, signature)
        }
    }
}

/// A Mach-O image without its code signature.
pub open spec fn macho_normalized(b: Seq<u8>, layout: (int, nat)) -> Seq<u8> {
    let (scrubbed, signature) = macho_scrub(b, layout.0, layout.1, None);
    match signature {
        Some((offset, size)) => blob_removed(scrubbed, offset, size),
        None => scrubbed,
    }
}

/// Whether commands are well formed depends only on the bytes from `cursor` on.
proof fn lemma_macho_valid_frame(b: Seq<u8>, c: Seq<u8>, cursor: int, remaining: nat, end: int)
    requires
        b.len() == c.len(),
        0 <= cursor,
        forall|i: int| cursor <= i < b.len() ==> b[i] == c[i],
        macho_commands_valid(b, cursor, remaining, end),
    ensures
        macho_commands_valid(c, cursor, remaining, end),
    decreases remaining,
{
    if remaining > 0 {
        let size = le_u32(b, cursor + 4);
        assert(u32_at(c, cursor) == u32_at(b, cursor));
        assert(u32_at(c, cursor + 4) == u32_at(b, cursor + 4));
        lemma_macho_valid_frame(b, c, cursor + size, (remaining - 1) as nat, end);
    }
}

/// Strips the code signature from a Mach-O image; `false`, with the bytes unchanged, when
/// they are not a well-formed one.
#[verifier::loop_isolation(false)]
pub fn normalize_macho_code_signature(bytes: &mut Vec<u8>) -> (normalized: bool)
    ensures
        normalized == macho_layout(old(bytes)@) is Some,
        match macho_layout(old(bytes)@) {
            Some(layout) => final(bytes)@ == macho_normalized(old(bytes)@, layout),
            None => final(bytes)@ == old(bytes)@,
        },
{
    let ghost b = bytes@;
    let n = bytes.len();
    if n < 4 || bytes[1] != 0xfa || bytes[2] != 0xed || bytes[3] != 0xfe {
        return false;
    }
    let header_size: usize = if bytes[0] == 0xcf {
        32
    } else if bytes[0] == 0xce {
        28
    } else {
        return false;
    };
    let command_count = match read_u32_le(bytes.as_slice(), 16) {
        Some(c) => c,
        None => {
            return false;
        },
    };
    let commands_size = match read_u32_le(bytes.as_slice(), 20) {
        Some(s) => s as usize,
        None => {
            return false;
        },
    };
    if commands_size > n || header_size > n - commands_size {
        return false;
    }
    let commands_end = header_size + commands_size;
    let mut cursor = header_size;
    let mut k: u32 = 0;
    while k < command_count
        invariant
            b == bytes@,
            n == bytes@.len(),
            k <= command_count,
            header_size <= cursor <= commands_end,
            commands_end <= n,
            macho_commands_valid(b, header_size as int, command_count as nat, commands_end as int)
                == macho_commands_valid(b, cursor as int, (command_count - k) as nat, commands_end as int),
        decreases command_count - k,
    {
        if n - cursor < 8 {
            return false;
        }
        let command_size = match read_u32_le(bytes.as_slice(), cursor + 4) {
            Some(s) => s as usize,
            None => 0,
        };
        if command_size < 8 || command_size > commands_end - cursor {
            return false;
        }
        cursor = cursor + command_size;
        k = k + 1;
    }
    let ghost header = header_size as int;
    let ghost count = command_count as nat;
    assert(macho_layout(b) == Some((header, count)));
    let mut cursor = header_size;
    let mut signature: Option<(usize, usize)> = None;
    let mut k: u32 = 0;
    while k < command_count
        invariant
            n == bytes@.len(),
            k <= command_count,
            header_size <= cursor <= commands_end,
            commands_end <= n,
            macho_commands_valid(bytes@, cursor as int, (command_count - k) as nat, commands_end as int),
            macho_scrub(b, header, count, None) == macho_scrub(
                bytes@,
                cursor as int,
                (command_count - k) as nat,
                match signature {
                    Some((o, s)) => Some((o as int, s as int)),
                    None => None,
                },
            ),
        decreases command_count - k,
    {
        let command = match read_u32_le(bytes.as_slice(), cursor) {
            Some(c) => c,
            None => 0,
        };
        let command_size = match read_u32_le(bytes.as_slice(), cursor + 4) {
            Some(s) => s as usize,
            None => 0,
        };
        let ghost before = bytes@;
        if command == 0x1d && command_size >= 16 {
            let offset = match read_u32_le(bytes.as_slice(), cursor + 8) {
                Some(o) => o as usize,
                None => 0,
            };
            let size = match read_u32_le(bytes.as_slice(), cursor + 12) {
                Some(s) => s as usize,
                None => 0,
            };
            zero_range(bytes, cursor + 8, 8);
            signature = Some((offset, size));
            proof {
                lemma_macho_valid_frame(
                    before,
                    bytes@,
                    cursor + command_size,
                    (command_count - k - 1) as nat,
                    commands_end as int,
                );
            }
        }
        cursor = cursor + command_size;
        k = k + 1;
    }
    match signature {
        Some((offset, size)) => remove_signature_blob(bytes, offset, size),
        None => {},
    }
    true
}

/// The bytes whose identity is taken: the executable without its embedded signature, when
/// it is a PE or Mach-O image that carries one where it should; otherwise the bytes themselves.
pub open spec fn normalized_identity_bytes(b: Seq<u8>) -> Seq<u8> {
    match pe_layout(b) {
        Some(layout) => pe_normalized(b, layout),
        None => match macho_layout(b) {
            Some(layout) => macho_normalized(b, layout),
            None => b,
        },
    }
}

/// The bytes whose identity is taken.
pub fn normalized_executable(bytes: &[u8]) -> (normalized: Vec<u8>)
    ensures
        normalized@ == normalized_identity_bytes(bytes@),
{
    let mut normalized: Vec<u8> = Vec::new();
    let mut i: usize = 0;
    while i < bytes.len()
        invariant
            i <= bytes@.len(),
            normalized@ == bytes@.subrange(0, i as int),
        decreases bytes@.len() - i,
    {
        normalized.push(bytes[i]);
        i = i + 1;
        assert(normalized@ =~= bytes@.subrange(0, i as int));
    }
    assert(normalized@ =~= bytes@);
    if !normalize_pe_authenticode(&mut normalized) {
        let _ = normalize_macho_code_signature(&mut normalized);
    }
    normalized
}


/// The identity of an executable: the SHA-256 digest of its bytes without an embedded
/// signature, in lower-case hexadecimal.
pub open spec fn identity_hex(bytes: Seq<u8>) -> Seq<char> {
    hex_of(sha256_of(normalized_identity_bytes(bytes)))
}

/// Executables that are the same once their embedded signatures are removed, such as a signed
/// build and the unsigned build it was signed from, have the same identity.
pub proof fn lemma_signature_does_not_change_identity(signed: Seq<u8>, unsigned: Seq<u8>)
    requires
        normalized_identity_bytes(signed) == normalized_identity_bytes(unsigned),
    ensures
        identity_hex(signed) == identity_hex(unsigned),
{
}

/// The identity of an executable in memory.
pub fn digest_hex(bytes: &[u8]) -> (identity: String)
    ensures
        identity@ == identity_hex(bytes@),
        identity@.len() == 64,
        forall|i: int| 0 <= i < identity@.len() ==> is_lower_hex_digit(#[trigger] identity@[i]),
{
    let normalized = normalized_executable(bytes);
    let digest = sha256(normalized.as_slice());
    let mut identity = String::new();
    push_hex(&mut identity, digest.as_slice());
    assert(identity@ =~= hex_of(digest@));
    proof {
        lemma_hex_of_shape(digest@);
    }
    identity
}

/// What was read of an executable file: whether it is a regular file, the length its
/// metadata states, and its bytes, read up to one byte past the limit.
pub struct ExecutableFile {
    pub is_regular_file: bool,
    pub length: u64,
    pub bytes: Vec<u8>,
}

/// Why a file has no identity.
#[derive(Clone, Copy, Debug, PartialEq, Eq, Structural)]
pub enum IdentityError {
    /// It is empty, not a regular file, or states a length over the limit.
    Unacceptable,
    /// What was read of it is empty or over the limit.
    EmptyOrTooLarge,
}

impl IdentityError {
    /// What went wrong, in words.
    pub fn message(self) -> (text: &'static str)
        ensures
            text@ == match self {
                IdentityError::Unacceptable => "privilege broker is empty, not a regular file, or exceeds the size limit"@,
                IdentityError::EmptyOrTooLarge => "privilege broker is empty or exceeds the size limit"@,
            },
    {
        match self {
            IdentityError::Unacceptable => "privilege broker is empty, not a regular file, or exceeds the size limit",
            IdentityError::EmptyOrTooLarge => "privilege broker is empty or exceeds the size limit",
        }
    }
}

/// The identity of a file no longer than `maximum_bytes`: refused when it is not a regular
/// file, or its stated or read length is zero or over the limit.
pub open spec fn file_identity(
    is_regular_file: bool,
    length: u64,
    bytes: Seq<u8>,
    maximum_bytes: u64,
) -> Result<Seq<char>, IdentityError> {
    if !is_regular_file || length == 0 || length > maximum_bytes {
        Err(IdentityError::Unacceptable)
    } else if bytes.len() == 0 || bytes.len() > maximum_bytes {
        Err(IdentityError::EmptyOrTooLarge)
    } else {
        Ok(identity_hex(bytes))
    }
}

/// A file has an identity exactly when it is a regular file whose stated length and whose bytes
/// read are both non-zero and within the limit; its identity is then that of its bytes in
/// memory, so the file and the bytes it holds are identified alike.
pub proof fn lemma_file_identity_bounded(is_regular_file: bool, length: u64, bytes: Seq<u8>, maximum_bytes: u64)
    ensures
        file_identity(is_regular_file, length, bytes, maximum_bytes) is Ok <==> {
            &&& is_regular_file
            &&& 0 < length <= maximum_bytes
            &&& 0 < bytes.len() <= maximum_bytes
        },
        file_identity(is_regular_file, length, bytes, maximum_bytes) is Ok ==> file_identity(
            is_regular_file,
            length,
            bytes,
            maximum_bytes,
        ) == Ok::<Seq<char>, IdentityError>(identity_hex(bytes)),
{
}

/// The identity of a file no longer than `maximum_bytes`.
pub fn digest_file_hex_with_limit(file: &ExecutableFile, maximum_bytes: u64) -> (identity: Result<
    String,
    IdentityError,
>)
    ensures
        match identity {
            Ok(text) => file_identity(file.is_regular_file, file.length, file.bytes@, maximum_bytes)
                == Ok::<Seq<char>, IdentityError>(text@) && text@.len() == 64 && forall|i: int|
                0 <= i < text@.len() ==> is_lower_hex_digit(#[trigger] text@[i]),
            Err(e) => file_identity(file.is_regular_file, file.length, file.bytes@, maximum_bytes)
                == Err::<Seq<char>, IdentityError>(e),
        },
{
    if !file.is_regular_file || file.length == 0 || file.length > maximum_bytes {
        return Err(IdentityError::Unacceptable);
    }
    if file.bytes.len() == 0 || file.bytes.len() as u64 > maximum_bytes {
        return Err(IdentityError::EmptyOrTooLarge);
    }
    Ok(digest_hex(file.bytes.as_slice()))
}

/// The identity of a privilege broker executable.
pub fn digest_file_hex(file: &ExecutableFile) -> (identity: Result<String, IdentityError>)
    ensures
        match identity {
            Ok(text) => file_identity(file.is_regular_file, file.length, file.bytes@, MAX_PRIVILEGE_BROKER_BYTES)
                == Ok::<Seq<char>, IdentityError>(text@) && text@.len() == 64 && forall|i: int|
                0 <= i < text@.len() ==> is_lower_hex_digit(#[trigger] text@[i]),
            Err(e) => file_identity(file.is_regular_file, file.length, file.bytes@, MAX_PRIVILEGE_BROKER_BYTES)
                == Err::<Seq<char>, IdentityError>(e),
        },
{
    digest_file_hex_with_limit(file, MAX_PRIVILEGE_BROKER_BYTES)
}

} // verus!
