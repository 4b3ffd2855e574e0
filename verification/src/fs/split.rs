//! Names that do not fit one slot: how a name is cut into fragments, and that
//! a listing puts it together again.
//!
//! A name is cut between characters. Each fragment takes as many bytes of what
//! is left as fit in 63, until at most 25 are left: those go into the inode.

use vstd::prelude::*;
use vstd::utf8::*;
use vstd::string::*;
use vstd::slice::slice_subrange;
use crate::error::FsError;
use crate::fs::directory::{
    copy_into, decoded, lemma_inode_fields, lemma_trim_zeros_padding, trim_zeros, zeros,
    DirectoryEntry, DirectoryEntryView, InodeView, DIRECTORY, FRAGMENT, IN_USE,
};
use crate::fs::{listed, pending_name};
use crate::DirEntry;

verus! {

/// The largest place at or before `limit` where `bytes` can be cut between two
/// characters; the end of `bytes` where it has no more than `limit` bytes.
pub open spec fn cut(bytes: Seq<u8>, limit: int) -> int
    decreases limit,
{
    if limit <= 0 {
        0
    } else if limit >= bytes.len() {
        bytes.len() as int
    } else if !is_continuation_byte(bytes[limit]) {
        limit
    } else {
        cut(bytes, limit - 1)
    }
}

/// The fragments that `bytes` is cut into while more than `keep` bytes are left.
pub open spec fn fragments(bytes: Seq<u8>, keep: int) -> Seq<Seq<u8>>
    decreases bytes.len(),
{
    let at = cut(bytes, 63);
    if bytes.len() <= keep || at <= 0 || at > bytes.len() {
        Seq::empty()
    } else {
        seq![bytes.subrange(0, at)] + fragments(bytes.subrange(at, bytes.len() as int), keep)
    }
}

/// What is left of `bytes` behind its fragments.
pub open spec fn remainder(bytes: Seq<u8>, keep: int) -> Seq<u8>
    decreases bytes.len(),
{
    let at = cut(bytes, 63);
    if bytes.len() <= keep || at <= 0 || at > bytes.len() {
        bytes
    } else {
        remainder(bytes.subrange(at, bytes.len() as int), keep)
    }
}

/// The 64 bytes of a slot that holds the fragment `text`.
pub open spec fn fragment_slot(text: Seq<u8>) -> Seq<u8> {
    seq![3u8] + text + zeros(63 - text.len())
}

/// The slots for the fragments `texts`, in order.
pub open spec fn fragment_slots(texts: Seq<Seq<u8>>) -> Seq<Seq<u8>> {
    texts.map_values(|text: Seq<u8>| fragment_slot(text))
}

impl DirectoryEntryView {
    /// The slots that hold the entry, however long its text is: an unused slot for
    /// an unused entry, the fragments of a fragment's text, and for an inode the
    /// fragments of its name and then the inode with the rest of the name.
    pub open spec fn split(self) -> Seq<Seq<u8>> {
        match self {
            DirectoryEntryView::Invalid => seq![zeros(64)],
            DirectoryEntryView::LongFileName(text) => fragment_slots(
                fragments(encode_utf8(text), 0),
            ),
            DirectoryEntryView::Directory(inode) => {
                let name = encode_utf8(inode.name);
                let last = inode.bytes_named(remainder(name, 25));
                fragment_slots(fragments(name, 25)).push(last.update(0, (last[0] + 5) as u8))
            },
            DirectoryEntryView::File(inode) => {
                let name = encode_utf8(inode.name);
                let last = inode.bytes_named(remainder(name, 25));
                fragment_slots(fragments(name, 25)).push(last.update(0, (last[0] + 1) as u8))
            },
        }
    }
}

/// At most three bytes before any place in UTF-8 text, the text can be cut
/// between two characters.
pub proof fn lemma_boundary_near(bytes: Seq<u8>, limit: int) -> (back: int)
    requires
        valid_utf8(bytes),
        0 <= limit <= bytes.len(),
    ensures
        0 <= back <= 3,
        back <= limit,
        is_char_boundary(bytes, limit - back),
    decreases bytes.len(),
{
    if limit == 0 {
        0
    } else {
        let first = length_of_first_scalar(bytes);
        if limit < first {
            limit
        } else {
            let back = lemma_boundary_near(pop_first_scalar(bytes), limit - first);
            back
        }
    }
}

/// Where `cut` cuts UTF-8 text, one character ends and the next begins; the cut
/// lies at most three bytes before the limit, and before the first byte only
/// where the text is empty or the limit is not positive.
pub proof fn lemma_cut(bytes: Seq<u8>, limit: int)
    requires
        valid_utf8(bytes),
        0 <= limit,
    ensures
        0 <= cut(bytes, limit) <= bytes.len(),
        cut(bytes, limit) <= limit,
        is_char_boundary(bytes, cut(bytes, limit)),
        limit >= bytes.len() ==> cut(bytes, limit) == bytes.len(),
        limit < bytes.len() ==> cut(bytes, limit) > limit - 4,
{
    is_char_boundary_start_end_of_seq(bytes);
    if limit < bytes.len() {
        let back = lemma_boundary_near(bytes, limit);
        lemma_cut_finds(bytes, limit, limit - back);
    }
}

/// `cut` does not pass a place where the text can be cut.
proof fn lemma_cut_finds(bytes: Seq<u8>, limit: int, boundary: int)
    requires
        valid_utf8(bytes),
        0 <= boundary <= limit < bytes.len(),
        is_char_boundary(bytes, boundary),
    ensures
        boundary <= cut(bytes, limit) <= limit,
        is_char_boundary(bytes, cut(bytes, limit)),
    decreases limit,
{
    if limit > 0 {
        is_char_boundary_iff_not_is_continuation_byte(bytes, limit);
        if is_continuation_byte(bytes[limit]) {
            lemma_cut_finds(bytes, limit - 1, boundary);
        }
    }
}

/// No byte of `bytes` is zero.
pub open spec fn nonzero(bytes: Seq<u8>) -> bool {
    forall|j: int| 0 <= j < bytes.len() ==> bytes[j] != 0
}

/// No character of `text` is NUL.
pub open spec fn without_nul(text: Seq<char>) -> bool {
    forall|i: int| 0 <= i < text.len() ==> text[i] != '\0'
}

/// The texts that the byte strings `pieces` spell.
pub open spec fn texts(pieces: Seq<Seq<u8>>) -> Seq<Seq<char>> {
    pieces.map_values(|piece: Seq<u8>| decode_utf8(piece))
}

/// The entries that slots with the fragments `texts` hold.
pub open spec fn fragment_entries(texts: Seq<Seq<char>>) -> Seq<DirectoryEntryView> {
    texts.map_values(|text: Seq<char>| DirectoryEntryView::LongFileName(text))
}

/// The entries that the slots `slots` hold, where each of them can be decoded.
pub open spec fn read_slots(slots: Seq<Seq<u8>>) -> Seq<DirectoryEntryView> {
    slots.map_values(|raw: Seq<u8>| decoded(raw)->Ok_0)
}

/// The encoding of a character other than NUL has no zero byte.
pub proof fn lemma_scalar_nonzero(c: char)
    requires
        c != '\0',
    ensures
        nonzero(encode_scalar(c as u32)),
{
    let v = c as u32;
    char_is_scalar(c);
    assert(v <= 0x7F && v != 0 ==> (v & 0x7F) as u8 != 0) by (bit_vector);
    assert((0xC0 | ((v >> 6) & 0x1F) as u8) != 0) by (bit_vector);
    assert((0xE0 | ((v >> 12) & 0x0F) as u8) != 0) by (bit_vector);
    assert((0xF0 | ((v >> 18) & 0x7) as u8) != 0) by (bit_vector);
    assert((0x80 | (v & 0x3F) as u8) != 0) by (bit_vector);
    assert((0x80 | ((v >> 6) & 0x3F) as u8) != 0) by (bit_vector);
    assert((0x80 | ((v >> 12) & 0x3F) as u8) != 0) by (bit_vector);
}

/// The encoding of a text without NUL has no zero byte.
pub proof fn lemma_no_zero_bytes(text: Seq<char>)
    requires
        without_nul(text),
    ensures
        nonzero(encode_utf8(text)),
    decreases text.len(),
{
    if text.len() > 0 {
        let c: char = text[0];
        lemma_scalar_nonzero(c);
        lemma_no_zero_bytes(text.drop_first());
    }
}

/// Fragments are UTF-8 text of 1 to 63 bytes, what is left behind them is UTF-8
/// text of no more bytes than are kept for it, and the fragments and what is
/// left spell, one after the other, what the whole spells.
pub proof fn lemma_fragments(bytes: Seq<u8>, keep: int)
    requires
        valid_utf8(bytes),
        0 <= keep,
    ensures
        forall|k: int|
            0 <= k < fragments(bytes, keep).len() ==> {
                let piece = #[trigger] fragments(bytes, keep)[k];
                &&& valid_utf8(piece)
                &&& 1 <= piece.len() <= 63
                &&& nonzero(bytes) ==> nonzero(piece)
            },
        valid_utf8(remainder(bytes, keep)),
        remainder(bytes, keep).len() <= keep,
        nonzero(bytes) ==> nonzero(remainder(bytes, keep)),
        texts(fragments(bytes, keep)).flatten() + decode_utf8(remainder(bytes, keep))
            == decode_utf8(bytes),
    decreases bytes.len(),
{
    let at = cut(bytes, 63);
    lemma_cut(bytes, 63);
    if bytes.len() > keep {
        let piece = bytes.subrange(0, at);
        let rest = bytes.subrange(at, bytes.len() as int);
        valid_utf8_split(bytes, at);
        decode_utf8_split(bytes, at);
        lemma_fragments(rest, keep);
        let more = fragments(rest, keep);
        assert forall|k: int| 0 <= k < fragments(bytes, keep).len() implies {
            let piece = #[trigger] fragments(bytes, keep)[k];
            &&& valid_utf8(piece)
            &&& 1 <= piece.len() <= 63
            &&& nonzero(bytes) ==> nonzero(piece)
        } by {}
        let all = texts(seq![piece] + more);
        assert(all.drop_first() =~= texts(more));
    }
}

/// After fragments alone, the name that is pending is their texts, one after
/// the other.
pub proof fn lemma_pending_fragments(texts: Seq<Seq<char>>)
    ensures
        pending_name(fragment_entries(texts)) == texts.flatten(),
    decreases texts.len(),
{
    texts.lemma_flatten_and_flatten_alt_are_equivalent();
    if texts.len() > 0 {
        let entries = fragment_entries(texts);
        assert(entries.drop_last() =~= fragment_entries(texts.drop_last()));
        lemma_pending_fragments(texts.drop_last());
        texts.drop_last().lemma_flatten_and_flatten_alt_are_equivalent();
    }
}

/// A slot with a fragment of 1 to 63 bytes of UTF-8 text without a zero byte
/// holds that text.
pub proof fn lemma_fragment_slot(piece: Seq<u8>)
    requires
        valid_utf8(piece),
        piece.len() <= 63,
        piece.len() == 0 || piece.last() != 0,
    ensures
        fragment_slot(piece).len() == 64,
        decoded(fragment_slot(piece)) == Ok::<DirectoryEntryView, FsError>(
            DirectoryEntryView::LongFileName(decode_utf8(piece)),
        ),
{
    let raw = fragment_slot(piece);
    assert(raw.subrange(1, 64) =~= piece + zeros(63 - piece.len()));
    lemma_trim_zeros_padding(piece, 63 - piece.len());
}

impl DirectoryEntryView {
    /// The inode as a listing shows it once it has read the slots that `split`
    /// gives: as it is stored, under the whole of its name.
    pub open spec fn whole(self) -> DirectoryEntryView {
        match self {
            DirectoryEntryView::Directory(inode) => DirectoryEntryView::Directory(
                InodeView { name: inode.name, ..inode.stored() },
            ),
            DirectoryEntryView::File(inode) => DirectoryEntryView::File(
                InodeView { name: inode.name, ..inode.stored() },
            ),
            other => other,
        }
    }

    /// The inode of a file or directory.
    pub open spec fn inode(self) -> InodeView {
        match self {
            DirectoryEntryView::Directory(inode) => inode,
            DirectoryEntryView::File(inode) => inode,
            _ => arbitrary(),
        }
    }

    /// The name of an inode, the text of a fragment.
    pub open spec fn text(self) -> Seq<char> {
        match self {
            DirectoryEntryView::Directory(inode) => inode.name,
            DirectoryEntryView::File(inode) => inode.name,
            DirectoryEntryView::LongFileName(text) => text,
            DirectoryEntryView::Invalid => Seq::empty(),
        }
    }
}

/// The slot of an inode with 25 bytes or less of UTF-8 text without a zero byte
/// in its name field holds the inode as it is stored, under the name that the
/// text spells.
pub proof fn lemma_inode_slot(inode: InodeView, name: Seq<u8>, directory: bool)
    requires
        name.len() <= 25,
        valid_utf8(name),
        nonzero(name),
    ensures
        ({
            let plain = inode.bytes_named(name);
            let raw = plain.update(
                0,
                (plain[0] + if directory {
                    5int
                } else {
                    1int
                }) as u8,
            );
            let read = InodeView { name: decode_utf8(name), ..inode.stored() };
            &&& raw.len() == 64
            &&& decoded(raw) == Ok::<DirectoryEntryView, FsError>(
                if directory {
                    DirectoryEntryView::Directory(read)
                } else {
                    DirectoryEntryView::File(read)
                },
            )
        }),
{
    let plain = inode.bytes_named(name);
    let flag: int = if directory {
        5
    } else {
        1
    };
    lemma_inode_fields(inode, name, (plain[0] + flag) as u8);
}

/// The slots that an inode is split into are read back as the inode under its
/// whole name: for every inode whose name has no NUL in it, whatever its length.
/// All slots but the last hold fragments; a listing that has nothing pending
/// before them shows the last one as the inode, its name put together again.
pub proof fn lemma_split_round_trip(entry: DirectoryEntryView)
    requires
        entry is File || entry is Directory,
        without_nul(entry.text()),
    ensures
        ({
            let slots = entry.split();
            let last = slots.len() - 1;
            &&& slots.len() >= 1
            &&& forall|k: int| 0 <= k < slots.len() ==> (#[trigger] slots[k]).len() == 64
            &&& forall|k: int| 0 <= k < slots.len() ==> decoded(#[trigger] slots[k]) is Ok
            &&& forall|k: int|
                0 <= k < last ==> (#[trigger] read_slots(slots)[k]) is LongFileName
            &&& listed(
                pending_name(read_slots(slots).subrange(0, last)),
                read_slots(slots)[last],
            ) == entry.whole()
        }),
{
    let inode = entry.inode();
    let name = encode_utf8(inode.name);
    let pieces = fragments(name, 25);
    let rest = remainder(name, 25);
    let slots = entry.split();
    let last = slots.len() - 1;
    encode_utf8_valid_utf8(inode.name);
    encode_utf8_decode_utf8(inode.name);
    lemma_no_zero_bytes(inode.name);
    lemma_fragments(name, 25);
    lemma_pending_fragments(texts(pieces));
    lemma_inode_slot(inode, rest, entry is Directory);
    assert forall|k: int| 0 <= k < last implies decoded(#[trigger] slots[k]) == Ok::<
        DirectoryEntryView,
        FsError,
    >(DirectoryEntryView::LongFileName(decode_utf8(pieces[k]))) && slots[k].len() == 64 by {
        lemma_fragment_slot(pieces[k]);
    }
    assert(read_slots(slots).subrange(0, last) =~= fragment_entries(texts(pieces)));
}

/// The bytes of each slot of a list.
pub open spec fn slots_view(slots: Seq<DirEntry>) -> Seq<Seq<u8>> {
    slots.map_values(|raw: DirEntry| raw@)
}

/// Finds the place where the text from `start` on is cut for its next fragment.
fn next_cut(bytes: &[u8], start: usize) -> (at: usize)
    requires
        start <= bytes@.len(),
    ensures
        at == cut(bytes@.subrange(start as int, bytes@.len() as int), 63),
        start + at <= bytes@.len(),
        at <= 63,
{
    let left = bytes.len() - start;
    let ghost rest = bytes@.subrange(start as int, bytes@.len() as int);
    let mut at: usize = if left <= 63 {
        left
    } else {
        63
    };
    while at > 0 && at < left && bytes[start + at] >= 0x80 && bytes[start + at] <= 0xbf
        invariant
            at <= 63,
            at <= left,
            left == bytes@.len() - start,
            bytes@.len() <= usize::MAX,
            rest == bytes@.subrange(start as int, bytes@.len() as int),
            cut(rest, 63) == cut(rest, at as int),
        decreases at,
    {
        at -= 1;
    }
    at
}

/// Appends to `slots` the fragments that `bytes` is cut into while more than
/// `keep` bytes are left, and tells where the rest begins.
fn push_fragments(slots: &mut Vec<DirEntry>, bytes: &[u8], keep: usize) -> (rest: usize)
    requires
        valid_utf8(bytes@),
    ensures
        rest <= bytes@.len(),
        bytes@.subrange(rest as int, bytes@.len() as int) == remainder(bytes@, keep as int),
        bytes@.len() - rest <= keep,
        slots_view(final(slots)@) == slots_view(old(slots)@) + fragment_slots(
            fragments(bytes@, keep as int),
        ),
{
    let len = bytes.len();
    let mut start: usize = 0;
    let ghost mut done: Seq<Seq<u8>> = Seq::empty();
    proof {
        assert(bytes@.subrange(0, len as int) =~= bytes@);
    }
    while len - start > keep
        invariant
            len == bytes@.len(),
            start <= len,
            valid_utf8(bytes@.subrange(start as int, len as int)),
            fragments(bytes@, keep as int) == done + fragments(
                bytes@.subrange(start as int, len as int),
                keep as int,
            ),
            remainder(bytes@, keep as int) == remainder(
                bytes@.subrange(start as int, len as int),
                keep as int,
            ),
            slots_view(slots@) == slots_view(old(slots)@) + fragment_slots(done),
        decreases len - start,
    {
        let ghost rest = bytes@.subrange(start as int, len as int);
        let at = next_cut(bytes, start);
        proof {
            lemma_cut(rest, 63);
            valid_utf8_split(rest, at as int);
            assert(rest.subrange(at as int, rest.len() as int) =~= bytes@.subrange(
                start + at,
                len as int,
            ));
        }
        let text = slice_subrange(bytes, start, start + at);
        assert(text@ =~= rest.subrange(0, at as int));
        let mut raw = [0u8; 64];
        assert(IN_USE | FRAGMENT == 3) by (bit_vector);
        raw[0] = IN_USE | FRAGMENT;
        copy_into(&mut raw, 1, text);
        assert(raw@ =~= fragment_slot(text@));
        let ghost before = slots@;
        slots.push(raw);
        proof {
            let longer = done.push(text@);
            assert(slots_view(slots@) =~= slots_view(before).push(raw@));
            done = longer;
        }
        start = start + at;
    }
    start
}

impl DirectoryEntry {
    /// Spells the entry as the slots that hold it, however long its text is. A
    /// listing that reads these slots one after the other shows the entry under
    /// its whole name.
    pub fn split(&self) -> (slots: Vec<DirEntry>)
        ensures
            slots_view(slots@) == self@.split(),
    {
        let mut slots: Vec<DirEntry> = Vec::new();
        match self {
            DirectoryEntry::Invalid => {
                let raw = [0u8; 64];
                assert(raw@ =~= zeros(64));
                slots.push(raw);
            },
            DirectoryEntry::LongFileName(text) => {
                let bytes = text.as_str().as_bytes();
                proof {
                    encode_utf8_valid_utf8(text@);
                }
                let _ = push_fragments(&mut slots, bytes, 0);
            },
            DirectoryEntry::Directory(inode) => {
                let bytes = inode.name.as_str().as_bytes();
                proof {
                    encode_utf8_valid_utf8(inode.name@);
                }
                let rest = push_fragments(&mut slots, bytes, 25);
                let mut raw = inode.encode_named(slice_subrange(bytes, rest, bytes.len()));
                let first = raw[0];
                assert(first | IN_USE | DIRECTORY == (first + 5) as u8) by (bit_vector)
                    requires
                        first % 16 == 0,
                ;
                raw[0] = first | IN_USE | DIRECTORY;
                slots.push(raw);
            },
            DirectoryEntry::File(inode) => {
                let bytes = inode.name.as_str().as_bytes();
                proof {
                    encode_utf8_valid_utf8(inode.name@);
                }
                let rest = push_fragments(&mut slots, bytes, 25);
                let mut raw = inode.encode_named(slice_subrange(bytes, rest, bytes.len()));
                let first = raw[0];
                assert(first | IN_USE == (first + 1) as u8) by (bit_vector)
                    requires
                        first % 16 == 0,
                ;
                raw[0] = first | IN_USE;
                slots.push(raw);
            },
        }
        slots
    }
}

} // verus!
