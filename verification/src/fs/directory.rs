//! The 64-byte directory slot and what it holds: nothing, a fragment of a long
//! name, or the inode of a file or directory.
//!
//! Byte 0 of a slot tells the kind in its three lowest bits: bit 0 is set in a
//! slot that is in use, bit 1 in a name fragment, bit 2 in the inode of a
//! directory. The high nibble of byte 0 of an inode counts its hard links.

use vstd::prelude::*;
use vstd::utf8::*;
use vstd::string::*;
use vstd::slice::slice_subrange;
use crate::error::FsError;
use crate::utility::{
    le_bytes, le_bytes_to_u64_padded, le_value, lemma_le_value_bound, lemma_le_value_of_le_bytes,
    pow256, to_le_bytes,
};
use crate::fs::basic_fs_io::splice;
use crate::{DirEntry, FatEntry};

verus! {

/// `core::str::Utf8Error`, of which nothing is known but that it is an error.
#[verifier::external_type_specification]
#[verifier::external_body]
pub struct ExUtf8Error(core::str::Utf8Error);

/// `core::str::from_utf8` accepts exactly the byte strings that are UTF-8, and
/// the string slice it hands back is made of the bytes it was given.
pub assume_specification[ core::str::from_utf8 ](v: &[u8]) -> (result: Result<
    &str,
    core::str::Utf8Error,
>)
    ensures
        result is Ok <==> valid_utf8(v@),
        result matches Ok(text) ==> text.spec_bytes() == v@,
;

/// Bit 0 of byte 0: the slot is in use.
pub const IN_USE: u8 = 0b001;

/// Bit 1 of byte 0: the slot holds a fragment of a name.
pub const FRAGMENT: u8 = 0b010;

/// Bit 2 of byte 0: the inode in the slot is that of a directory.
pub const DIRECTORY: u8 = 0b100;

/// The metadata of one file or directory. Times are milliseconds since the epoch.
#[derive(Debug)]
pub struct Inode {
    pub name: String,
    pub length: u64,
    pub uid: u32,
    pub gid: u32,
    pub permission: u16,
    pub ctime: u64,
    pub mtime: u64,
    pub atime: u64,
    pub number_of_hlinks: u8,
    pub start_cluster: FatEntry,
}

/// An inode, with its name as a sequence of characters.
pub struct InodeView {
    pub name: Seq<char>,
    pub length: u64,
    pub uid: u32,
    pub gid: u32,
    pub permission: u16,
    pub ctime: u64,
    pub mtime: u64,
    pub atime: u64,
    pub number_of_hlinks: u8,
    pub start_cluster: FatEntry,
}

impl View for Inode {
    type V = InodeView;

    open spec fn view(&self) -> InodeView {
        InodeView {
            name: self.name@,
            length: self.length,
            uid: self.uid,
            gid: self.gid,
            permission: self.permission,
            ctime: self.ctime,
            mtime: self.mtime,
            atime: self.atime,
            number_of_hlinks: self.number_of_hlinks,
            start_cluster: self.start_cluster,
        }
    }
}

/// What one directory slot holds.
#[derive(Debug)]
pub enum DirectoryEntry {
    /// A slot that is not in use.
    Invalid,
    /// A part of a name that is too long for its inode.
    LongFileName(String),
    /// The inode of a directory.
    Directory(Inode),
    /// The inode of a file.
    File(Inode),
}

/// A directory entry, with its text as sequences of characters.
pub enum DirectoryEntryView {
    Invalid,
    LongFileName(Seq<char>),
    Directory(InodeView),
    File(InodeView),
}

impl View for DirectoryEntry {
    type V = DirectoryEntryView;

    open spec fn view(&self) -> DirectoryEntryView {
        match self {
            DirectoryEntry::Invalid => DirectoryEntryView::Invalid,
            DirectoryEntry::LongFileName(text) => DirectoryEntryView::LongFileName(text@),
            DirectoryEntry::Directory(inode) => DirectoryEntryView::Directory(inode@),
            DirectoryEntry::File(inode) => DirectoryEntryView::File(inode@),
        }
    }
}

/// `n` zero bytes.
pub open spec fn zeros(n: int) -> Seq<u8> {
    Seq::new(n as nat, |i: int| 0u8)
}

/// `bytes` without the zero bytes at its end.
pub open spec fn trim_zeros(bytes: Seq<u8>) -> Seq<u8>
    decreases bytes.len(),
{
    if bytes.len() > 0 && bytes.last() == 0 {
        trim_zeros(bytes.drop_last())
    } else {
        bytes
    }
}

/// 2 to the power 48: the times and the length of an inode are stored below it.
pub open spec fn limit_48() -> nat {
    0x1_0000_0000_0000
}

impl InodeView {
    /// The name fits in the 25 bytes that an inode has for it.
    pub open spec fn fits(self) -> bool {
        encode_utf8(self.name).len() <= 25
    }

    /// The 64 bytes of the inode with `name` in its name field, and with the three
    /// kind bits of byte 0 clear.
    pub open spec fn bytes_named(self, name: Seq<u8>) -> Seq<u8> {
        seq![((self.number_of_hlinks % 16) * 16) as u8] + le_bytes(self.uid as nat, 4) + le_bytes(
            self.gid as nat,
            4,
        ) + le_bytes(self.ctime as nat, 6) + le_bytes(self.mtime as nat, 6) + le_bytes(
            self.atime as nat,
            6,
        ) + le_bytes(self.permission as nat, 2) + le_bytes(self.start_cluster as nat, 4)
            + le_bytes(self.length as nat, 6) + name + zeros(25 - name.len())
    }

    /// The 64 bytes of the inode, with the three kind bits of byte 0 clear.
    pub open spec fn bytes(self) -> Seq<u8> {
        self.bytes_named(encode_utf8(self.name))
    }

    /// The inode as it comes back from its slot: the times and the length modulo
    /// 2 to the 48, the link count modulo 16, the name without the zero bytes at
    /// its end.
    pub open spec fn stored(self) -> InodeView {
        InodeView {
            name: decode_utf8(trim_zeros(encode_utf8(self.name))),
            length: (self.length as nat % limit_48()) as u64,
            ctime: (self.ctime as nat % limit_48()) as u64,
            mtime: (self.mtime as nat % limit_48()) as u64,
            atime: (self.atime as nat % limit_48()) as u64,
            number_of_hlinks: self.number_of_hlinks % 16,
            ..self
        }
    }
}

/// The inode that the 64 bytes of a slot spell.
pub open spec fn decoded_inode(raw: Seq<u8>) -> Result<InodeView, FsError> {
    let name = trim_zeros(raw.subrange(39, 64));
    if !valid_utf8(name) {
        Err(FsError::Encoding)
    } else {
        Ok(
            InodeView {
                name: decode_utf8(name),
                length: le_value(raw.subrange(33, 39)) as u64,
                uid: le_value(raw.subrange(1, 5)) as u32,
                gid: le_value(raw.subrange(5, 9)) as u32,
                permission: le_value(raw.subrange(27, 29)) as u16,
                ctime: le_value(raw.subrange(9, 15)) as u64,
                mtime: le_value(raw.subrange(15, 21)) as u64,
                atime: le_value(raw.subrange(21, 27)) as u64,
                number_of_hlinks: raw[0] / 16,
                start_cluster: le_value(raw.subrange(29, 33)) as u32,
            },
        )
    }
}

impl DirectoryEntryView {
    /// The entry fits in one slot: a fragment has at most 63 bytes of text, an
    /// inode at most 25 bytes of name.
    pub open spec fn fits(self) -> bool {
        match self {
            DirectoryEntryView::Invalid => true,
            DirectoryEntryView::LongFileName(text) => encode_utf8(text).len() <= 63,
            DirectoryEntryView::Directory(inode) => inode.fits(),
            DirectoryEntryView::File(inode) => inode.fits(),
        }
    }

    /// The 64 bytes of the slot that holds the entry.
    pub open spec fn bytes(self) -> Seq<u8> {
        match self {
            DirectoryEntryView::Invalid => zeros(64),
            DirectoryEntryView::LongFileName(text) => seq![3u8] + encode_utf8(text) + zeros(
                63 - encode_utf8(text).len(),
            ),
            DirectoryEntryView::Directory(inode) => inode.bytes().update(
                0,
                (inode.bytes()[0] + 5) as u8,
            ),
            DirectoryEntryView::File(inode) => inode.bytes().update(
                0,
                (inode.bytes()[0] + 1) as u8,
            ),
        }
    }
}

/// The entry that the 64 bytes of a slot spell.
pub open spec fn decoded(raw: Seq<u8>) -> Result<DirectoryEntryView, FsError> {
    if raw[0] % 2 == 0 {
        Ok(DirectoryEntryView::Invalid)
    } else if (raw[0] / 2) % 2 == 1 {
        let text = trim_zeros(raw.subrange(1, 64));
        if valid_utf8(text) {
            Ok(DirectoryEntryView::LongFileName(decode_utf8(text)))
        } else {
            Err(FsError::Encoding)
        }
    } else {
        match decoded_inode(raw) {
            Err(e) => Err(e),
            Ok(inode) => if (raw[0] / 4) % 2 == 1 {
                Ok(DirectoryEntryView::Directory(inode))
            } else {
                Ok(DirectoryEntryView::File(inode))
            },
        }
    }
}

/// Trailing zero bytes behind `bytes` are trimmed with those of `bytes`.
pub proof fn lemma_trim_zeros_padding(bytes: Seq<u8>, n: int)
    requires
        0 <= n,
    ensures
        trim_zeros(bytes + zeros(n)) == trim_zeros(bytes),
    decreases n,
{
    if n > 0 {
        let padded = bytes + zeros(n);
        assert(padded.drop_last() =~= bytes + zeros(n - 1));
        lemma_trim_zeros_padding(bytes, n - 1);
    }
}

/// What is left of UTF-8 text after its trailing zero bytes are trimmed is UTF-8.
pub proof fn lemma_trim_zeros_valid(bytes: Seq<u8>)
    requires
        valid_utf8(bytes),
    ensures
        valid_utf8(trim_zeros(bytes)),
    decreases bytes.len(),
{
    if bytes.len() > 0 && bytes.last() == 0 {
        let cut = bytes.len() - 1;
        is_char_boundary_iff_not_is_continuation_byte(bytes, cut);
        valid_utf8_split(bytes, cut);
        lemma_trim_zeros_valid(bytes.drop_last());
    }
}

/// Text as it comes back from a slot: without the NUL characters at its end.
pub open spec fn stored_text(text: Seq<char>) -> Seq<char> {
    decode_utf8(trim_zeros(encode_utf8(text)))
}

impl DirectoryEntryView {
    /// The entry as it comes back from its slot.
    pub open spec fn stored(self) -> DirectoryEntryView {
        match self {
            DirectoryEntryView::Invalid => DirectoryEntryView::Invalid,
            DirectoryEntryView::LongFileName(text) => DirectoryEntryView::LongFileName(
                stored_text(text),
            ),
            DirectoryEntryView::Directory(inode) => DirectoryEntryView::Directory(inode.stored()),
            DirectoryEntryView::File(inode) => DirectoryEntryView::File(inode.stored()),
        }
    }
}

/// An inode whose times and length are below 2 to the 48, whose link count is
/// below 16 and whose name does not end in NUL is stored as it is.
pub proof fn lemma_stored_unchanged(inode: InodeView)
    requires
        inode.length < limit_48(),
        inode.ctime < limit_48(),
        inode.mtime < limit_48(),
        inode.atime < limit_48(),
        inode.number_of_hlinks < 16,
        inode.name.len() == 0 || inode.name.last() != '\0',
    ensures
        inode.stored() == inode,
{
    lemma_stored_text(inode.name);
}

/// The bytes of an inode with UTF-8 text in its name field, whatever stands in
/// the low nibble of byte 0, spell the inode as it is stored, under the name
/// that the text spells without the zero bytes at its end.
pub proof fn lemma_inode_fields(inode: InodeView, name: Seq<u8>, first: u8)
    requires
        name.len() <= 25,
        valid_utf8(name),
        first / 16 == inode.number_of_hlinks % 16,
    ensures
        inode.bytes_named(name).len() == 64,
        decoded_inode(inode.bytes_named(name).update(0, first)) == Ok::<InodeView, FsError>(
            InodeView { name: decode_utf8(trim_zeros(name)), ..inode.stored() },
        ),
{
    let raw = inode.bytes_named(name).update(0, first);
    lemma_le_value_of_le_bytes(inode.uid as nat, 4);
    lemma_le_value_of_le_bytes(inode.gid as nat, 4);
    lemma_le_value_of_le_bytes(inode.ctime as nat, 6);
    lemma_le_value_of_le_bytes(inode.mtime as nat, 6);
    lemma_le_value_of_le_bytes(inode.atime as nat, 6);
    lemma_le_value_of_le_bytes(inode.permission as nat, 2);
    lemma_le_value_of_le_bytes(inode.start_cluster as nat, 4);
    lemma_le_value_of_le_bytes(inode.length as nat, 6);
    assert(pow256(2) == 0x1_0000 && pow256(4) == 0x1_0000_0000 && pow256(6) == limit_48()) by {
        reveal_with_fuel(pow256, 7);
    }
    assert(raw.subrange(1, 5) =~= le_bytes(inode.uid as nat, 4));
    assert(raw.subrange(5, 9) =~= le_bytes(inode.gid as nat, 4));
    assert(raw.subrange(9, 15) =~= le_bytes(inode.ctime as nat, 6));
    assert(raw.subrange(15, 21) =~= le_bytes(inode.mtime as nat, 6));
    assert(raw.subrange(21, 27) =~= le_bytes(inode.atime as nat, 6));
    assert(raw.subrange(27, 29) =~= le_bytes(inode.permission as nat, 2));
    assert(raw.subrange(29, 33) =~= le_bytes(inode.start_cluster as nat, 4));
    assert(raw.subrange(33, 39) =~= le_bytes(inode.length as nat, 6));
    assert(raw.subrange(39, 64) =~= name + zeros(25 - name.len()));
    lemma_trim_zeros_padding(name, 25 - name.len());
    lemma_trim_zeros_valid(name);
}

/// An entry that fits one slot comes back from the slot as it is stored: a file
/// as a file, a directory as a directory, with the times and the length modulo
/// 2 to the 48, the link count modulo 16, and text without the NUL characters
/// at its end.
pub proof fn lemma_entry_round_trip(entry: DirectoryEntryView)
    requires
        entry.fits(),
    ensures
        entry.bytes().len() == 64,
        decoded(entry.bytes()) == Ok::<DirectoryEntryView, FsError>(entry.stored()),
{
    match entry {
        DirectoryEntryView::Invalid => {},
        DirectoryEntryView::LongFileName(text) => {
            let bytes = encode_utf8(text);
            assert(entry.bytes().subrange(1, 64) =~= bytes + zeros(63 - bytes.len()));
            lemma_trim_zeros_padding(bytes, 63 - bytes.len());
            encode_utf8_valid_utf8(text);
            lemma_trim_zeros_valid(bytes);
        },
        DirectoryEntryView::Directory(inode) => {
            encode_utf8_valid_utf8(inode.name);
            lemma_inode_fields(inode, encode_utf8(inode.name), (inode.bytes()[0] + 5) as u8);
        },
        DirectoryEntryView::File(inode) => {
            encode_utf8_valid_utf8(inode.name);
            lemma_inode_fields(inode, encode_utf8(inode.name), (inode.bytes()[0] + 1) as u8);
        },
    }
}

/// The encoding of a text is the encoding of its parts, one after the other.
pub proof fn lemma_encode_utf8_concat(a: Seq<char>, b: Seq<char>)
    ensures
        encode_utf8(a + b) == encode_utf8(a) + encode_utf8(b),
    decreases a.len(),
{
    if a.len() > 0 {
        assert((a + b).drop_first() =~= a.drop_first() + b);
        lemma_encode_utf8_concat(a.drop_first(), b);
    }
}

/// The encoding of a character has one to four bytes, and only that of NUL ends
/// in a zero byte.
pub proof fn lemma_encode_scalar_last(c: char)
    ensures
        1 <= encode_scalar(c as u32).len() <= 4,
        encode_scalar(c as u32).last() == 0 <==> c == '\0',
{
    let v = c as u32;
    char_is_scalar(c);
    assert(v <= 0x7F ==> ((v & 0x7F) as u8 == 0 <==> v == 0)) by (bit_vector);
    assert((0x80 | (v & 0x3F) as u8) != 0) by (bit_vector);
}

/// Text that does not end in NUL comes back from a slot unchanged.
pub proof fn lemma_stored_text(text: Seq<char>)
    requires
        text.len() == 0 || text.last() != '\0',
    ensures
        stored_text(text) == text,
{
    if text.len() > 0 {
        assert(text =~= text.drop_last() + seq![text.last()]);
        lemma_encode_utf8_concat(text.drop_last(), seq![text.last()]);
        assert(encode_utf8(seq![text.last()]) =~= encode_scalar(text.last() as u32)) by {
            reveal_with_fuel(encode_utf8, 2);
        }
        lemma_encode_scalar_last(text.last());
    }
    encode_utf8_decode_utf8(text);
}

/// Copies `bytes` into `raw`, starting at `at`.
pub(crate) fn copy_into(raw: &mut DirEntry, at: usize, bytes: &[u8])
    requires
        at + bytes@.len() <= 64,
    ensures
        final(raw)@ == splice(old(raw)@, at as int, bytes@),
{
    let n = bytes.len();
    let mut i: usize = 0;
    while i < n
        invariant
            i <= n,
            n == bytes@.len(),
            at + n <= 64,
            raw@.len() == 64,
            forall|j: int| 0 <= j < i ==> raw@[at + j] == bytes@[j],
            forall|j: int| 0 <= j < 64 && !(at <= j < at + i) ==> raw@[j] == old(raw)@[j],
        decreases n - i,
    {
        raw[at + i] = bytes[i];
        i += 1;
    }
}

/// Reads the text that starts at `from` and runs to the end of the slot, without
/// the zero bytes at its end.
fn trimmed_text(raw: &DirEntry, from: usize) -> (result: Result<String, FsError>)
    requires
        from <= 64,
    ensures
        match result {
            Ok(text) => valid_utf8(trim_zeros(raw@.subrange(from as int, 64))) && text@
                == decode_utf8(trim_zeros(raw@.subrange(from as int, 64))),
            Err(e) => e == FsError::Encoding && !valid_utf8(
                trim_zeros(raw@.subrange(from as int, 64)),
            ),
        },
{
    let mut end: usize = 64;
    while end > from && raw[end - 1] == 0
        invariant
            from <= end <= 64,
            raw@.len() == 64,
            trim_zeros(raw@.subrange(from as int, 64)) == trim_zeros(
                raw@.subrange(from as int, end as int),
            ),
        decreases end,
    {
        proof {
            let field = raw@.subrange(from as int, end as int);
            assert(field.drop_last() =~= raw@.subrange(from as int, end - 1));
        }
        end -= 1;
    }
    let bytes = slice_subrange(raw.as_slice(), from, end);
    match core::str::from_utf8(bytes) {
        Ok(text) => {
            proof {
                encode_utf8_decode_utf8(text@);
            }
            Ok(text.to_owned())
        },
        Err(_) => Err(FsError::Encoding),
    }
}

/// Reads the little-endian number of `n` bytes at `at`.
fn field(raw: &DirEntry, at: usize, n: usize) -> (value: u64)
    requires
        n <= 8,
        at + n <= 64,
    ensures
        value == le_value(raw@.subrange(at as int, at + n)),
        value < pow256(n as nat),
{
    let bytes = slice_subrange(raw.as_slice(), at, at + n);
    proof {
        lemma_le_value_bound(bytes@);
    }
    le_bytes_to_u64_padded(bytes)
}

impl Inode {
    pub fn new(
        name: String,
        length: u64,
        uid: u32,
        gid: u32,
        permission: u16,
        ctime: u64,
        mtime: u64,
        atime: u64,
        number_of_hlinks: u8,
        start_cluster: FatEntry,
    ) -> (inode: Self)
        ensures
            inode@ == (InodeView {
                name: name@,
                length,
                uid,
                gid,
                permission,
                ctime,
                mtime,
                atime,
                number_of_hlinks,
                start_cluster,
            }),
    {
        Inode {
            name,
            length,
            uid,
            gid,
            permission,
            ctime,
            mtime,
            atime,
            number_of_hlinks,
            start_cluster,
        }
    }

    /// Whether the name fits in the 25 bytes that a slot has for it.
    pub fn fits(&self) -> (fits: bool)
        ensures
            fits == self@.fits(),
    {
        self.name.as_str().as_bytes().len() <= 25
    }

    /// Spells the inode as the 64 bytes of a slot, with the three kind bits clear.
    pub fn encode(&self) -> (raw: DirEntry)
        requires
            self@.fits(),
        ensures
            raw@ == self@.bytes(),
    {
        self.encode_named(self.name.as_str().as_bytes())
    }

    /// Spells the inode as the 64 bytes of a slot, with `name` in the name field
    /// and the three kind bits clear.
    pub(crate) fn encode_named(&self, name: &[u8]) -> (raw: DirEntry)
        requires
            name@.len() <= 25,
        ensures
            raw@ == self@.bytes_named(name@),
    {
        let mut raw = [0u8; 64];
        let links = self.number_of_hlinks;
        assert((links & 0x0F) << 4 == ((links % 16) * 16) as u8) by (bit_vector);
        raw[0] = (links & 0x0F) << 4;
        let uid = to_le_bytes::<4>(self.uid as u64);
        let gid = to_le_bytes::<4>(self.gid as u64);
        let ctime = to_le_bytes::<6>(self.ctime);
        let mtime = to_le_bytes::<6>(self.mtime);
        let atime = to_le_bytes::<6>(self.atime);
        let permission = to_le_bytes::<2>(self.permission as u64);
        let start_cluster = to_le_bytes::<4>(self.start_cluster as u64);
        let length = to_le_bytes::<6>(self.length);

        copy_into(&mut raw, 1, uid.as_slice());
        copy_into(&mut raw, 5, gid.as_slice());
        copy_into(&mut raw, 9, ctime.as_slice());
        copy_into(&mut raw, 15, mtime.as_slice());
        copy_into(&mut raw, 21, atime.as_slice());
        copy_into(&mut raw, 27, permission.as_slice());
        copy_into(&mut raw, 29, start_cluster.as_slice());
        copy_into(&mut raw, 33, length.as_slice());
        copy_into(&mut raw, 39, name);
        raw
    }

    /// Reads an inode from the 64 bytes of a slot. The name must be UTF-8.
    pub fn decode(raw: &DirEntry) -> (result: Result<Inode, FsError>)
        ensures
            match decoded_inode(raw@) {
                Ok(inode) => result matches Ok(read) && read@ == inode,
                Err(e) => result matches Err(err) && err == e,
            },
    {
        let first = raw[0];
        assert((first & 0xF0) >> 4 == first / 16) by (bit_vector);
        let number_of_hlinks = (first & 0xF0) >> 4;
        proof {
            reveal_with_fuel(pow256, 7);
        }
        let uid = field(raw, 1, 4) as u32;
        let gid = field(raw, 5, 4) as u32;
        let ctime = field(raw, 9, 6);
        let mtime = field(raw, 15, 6);
        let atime = field(raw, 21, 6);
        let permission = field(raw, 27, 2) as u16;
        let start_cluster = field(raw, 29, 4) as FatEntry;
        let length = field(raw, 33, 6);
        match trimmed_text(raw, 39) {
            Err(e) => Err(e),
            Ok(name) => Ok(
                Inode {
                    name,
                    length,
                    uid,
                    gid,
                    permission,
                    ctime,
                    mtime,
                    atime,
                    number_of_hlinks,
                    start_cluster,
                },
            ),
        }
    }
}

impl DirectoryEntry {
    /// Whether the entry fits in one slot.
    pub fn fits(&self) -> (fits: bool)
        ensures
            fits == self@.fits(),
    {
        match self {
            DirectoryEntry::Invalid => true,
            DirectoryEntry::LongFileName(text) => text.as_str().as_bytes().len() <= 63,
            DirectoryEntry::Directory(inode) => inode.fits(),
            DirectoryEntry::File(inode) => inode.fits(),
        }
    }

    /// Spells the entry as the 64 bytes of a slot.
    pub fn encode(&self) -> (raw: DirEntry)
        requires
            self@.fits(),
        ensures
            raw@ == self@.bytes(),
    {
        match self {
            DirectoryEntry::Invalid => {
                let raw = [0u8; 64];
                raw
            },
            DirectoryEntry::LongFileName(text) => {
                let mut raw = [0u8; 64];
                assert(IN_USE | FRAGMENT == 3) by (bit_vector);
                raw[0] = IN_USE | FRAGMENT;
                let bytes = text.as_str().as_bytes();
                copy_into(&mut raw, 1, bytes);
                raw
            },
            DirectoryEntry::Directory(inode) => {
                let mut raw = inode.encode();
                let first = raw[0];
                assert(first | IN_USE | DIRECTORY == (first + 5) as u8) by (bit_vector)
                    requires
                        first % 16 == 0,
                ;
                raw[0] = first | IN_USE | DIRECTORY;
                raw
            },
            DirectoryEntry::File(inode) => {
                let mut raw = inode.encode();
                let first = raw[0];
                assert(first | IN_USE == (first + 1) as u8) by (bit_vector)
                    requires
                        first % 16 == 0,
                ;
                raw[0] = first | IN_USE;
                raw
            },
        }
    }

    /// Reads the entry that the 64 bytes of a slot hold. Text must be UTF-8.
    pub fn decode(raw: &DirEntry) -> (result: Result<DirectoryEntry, FsError>)
        ensures
            match decoded(raw@) {
                Ok(entry) => result matches Ok(read) && read@ == entry,
                Err(e) => result matches Err(err) && err == e,
            },
    {
        let first = raw[0];
        assert((first & IN_USE == 0) == (first % 2 == 0)) by (bit_vector);
        assert((first & FRAGMENT != 0) == ((first / 2) % 2 == 1)) by (bit_vector);
        assert((first & DIRECTORY != 0) == ((first / 4) % 2 == 1)) by (bit_vector);
        if first & IN_USE == 0 {
            Ok(DirectoryEntry::Invalid)
        } else if first & FRAGMENT != 0 {
            match trimmed_text(raw, 1) {
                Err(e) => Err(e),
                Ok(text) => Ok(DirectoryEntry::LongFileName(text)),
            }
        } else {
            match Inode::decode(raw) {
                Err(e) => Err(e),
                Ok(inode) => if first & DIRECTORY != 0 {
                    Ok(DirectoryEntry::Directory(inode))
                } else {
                    Ok(DirectoryEntry::File(inode))
                },
            }
        }
    }
}

} // verus!
