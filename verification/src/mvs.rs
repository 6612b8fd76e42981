//! Cutscene chunks: a block of padding and header data followed by embedded
//! Bink clips, each found by its signature.

use vstd::prelude::*;
use vstd::slice::{slice_subrange, slice_to_vec};
use crate::ucfb::{padding, tag_is, Chunk};
use crate::wire::{le_u32, read_le_u32};

verus! {

/// An in-game cutscene: the clips embedded in one chunk, in stream order.
#[derive(Debug)]
pub struct Movie {
    /// The clips, each a Bink file of its own.
    pub bink_files: Vec<Vec<u8>>,
}

/// What can go wrong when a cutscene chunk is decoded.
#[derive(Debug, Clone, Copy, PartialEq, Eq, Structural)]
pub enum MovieError {
    /// The chunk does not carry the cutscene tag.
    NotAMovie,
    /// The payload is shorter than its leading block, or a clip declares more
    /// bytes than are left.
    CorruptedMovie,
}

/// The tag of a cutscene chunk.
pub const MOVIE_TAG: [u8; 4] = [0x60, 0x70, 0x1F, 0x2F];

/// Length of the block in front of the first clip: 0x2F0 bytes of padding and
/// 0x500 bytes of header.
pub const LEAD_LEN: usize = 0x7F0;

/// What a clip takes beyond the value of its size field.
///
/// A clip is cut out with this one overhead, and the scan resumes at the first
/// multiple of four at or behind the end of the clip.
pub const CLIP_OVERHEAD: u64 = 15;

/// Whether the three bytes at `at` are the clip signature, the ASCII letters
/// `BIK`.
pub open spec fn signature_at(data: Seq<u8>, at: int) -> bool {
    &&& at + 3 <= data.len()
    &&& data[at] == 0x42
    &&& data[at + 1] == 0x49
    &&& data[at + 2] == 0x4B
}

/// Length of the clip whose signature stands at `at`: the size field four
/// bytes behind the signature's start, plus the overhead.
pub open spec fn clip_len(data: Seq<u8>, at: int) -> int {
    le_u32(data, at + 4) + CLIP_OVERHEAD
}

/// `offset` brought up to the next multiple of four.
pub open spec fn align_up(offset: nat) -> nat {
    offset + padding(offset)
}

/// `clip` put in front of the clips of an outcome.
pub open spec fn prepend_clip(clip: Seq<u8>, outcome: Result<Seq<Seq<u8>>, MovieError>) -> Result<
    Seq<Seq<u8>>,
    MovieError,
> {
    match outcome {
        Ok(rest) => Ok(seq![clip] + rest),
        Err(e) => Err(e),
    }
}

/// The clips found in `data` from `offset` on.
///
/// Where there is no signature the scan moves on by four bytes. Where there
/// is one, the clip is cut out, and the scan resumes behind it; a clip whose
/// size field is cut off, or that would run past the end, makes the scan fail.
pub open spec fn spec_scan(data: Seq<u8>, offset: nat) -> Result<Seq<Seq<u8>>, MovieError>
    decreases data.len() + 4 - offset,
{
    if offset >= data.len() {
        Ok(Seq::empty())
    } else if !signature_at(data, offset as int) {
        spec_scan(data, offset + 4)
    } else if offset + 8 > data.len() || offset + clip_len(data, offset as int) > data.len() {
        Err(MovieError::CorruptedMovie)
    } else {
        let end = offset + clip_len(data, offset as int);
        prepend_clip(data.subrange(offset as int, end), spec_scan(data, align_up(end as nat)))
    }
}

/// The clips of a chunk with tag `tag` and payload `data`.
pub open spec fn spec_movie(tag: [u8; 4], data: Seq<u8>) -> Result<Seq<Seq<u8>>, MovieError> {
    if tag != MOVIE_TAG {
        Err(MovieError::NotAMovie)
    } else if data.len() < LEAD_LEN {
        Err(MovieError::CorruptedMovie)
    } else {
        spec_scan(data.skip(LEAD_LEN as int), 0)
    }
}

/// The byte sequences held by a sequence of buffers.
pub open spec fn clips_of(buffers: Seq<Vec<u8>>) -> Seq<Seq<u8>> {
    buffers.map_values(|b: Vec<u8>| b@)
}

impl View for Movie {
    type V = Seq<Seq<u8>>;

    open spec fn view(&self) -> Seq<Seq<u8>> {
        clips_of(self.bink_files@)
    }
}

/// `found` in front of an outcome: the clips that the scan had before it.
pub open spec fn prepend_clips(found: Seq<Seq<u8>>, outcome: Result<Seq<Seq<u8>>, MovieError>) -> Result<
    Seq<Seq<u8>>,
    MovieError,
> {
    match outcome {
        Ok(rest) => Ok(found + rest),
        Err(e) => Err(e),
    }
}

/// A scan that starts at or behind the end finds nothing.
proof fn lemma_scan_past_end(data: Seq<u8>, a: nat, b: nat)
    requires
        a == b || (a >= data.len() && b >= data.len()),
    ensures
        spec_scan(data, a) == spec_scan(data, b),
{
}

proof fn lemma_prepend_clips_push(
    found: Seq<Seq<u8>>,
    clip: Seq<u8>,
    outcome: Result<Seq<Seq<u8>>, MovieError>,
)
    ensures
        prepend_clips(found, prepend_clip(clip, outcome)) == prepend_clips(
            found.push(clip),
            outcome,
        ),
{
    match outcome {
        Ok(rest) => {
            assert(found + (seq![clip] + rest) =~= found.push(clip) + rest);
        },
        Err(_) => {},
    }
}

/// The first multiple of four at or behind `end`, or `len` where that lies
/// behind the end of the data.
fn resume_at(end: usize, len: usize) -> (next: usize)
    requires
        end <= len,
    ensures
        end <= next <= len,
        next == align_up(end as nat) || (next == len && align_up(end as nat) >= len),
{
    let over: usize = end % 4;
    if over == 0 {
        end
    } else if len - end >= 4 - over {
        end + (4 - over)
    } else {
        len
    }
}

impl Clone for Movie {
    /// A copy with the same clips in the same order.
    fn clone(&self) -> (copy: Self)
        ensures
            copy@ == self@,
    {
        let mut bink_files: Vec<Vec<u8>> = Vec::new();
        let mut i: usize = 0;
        while i < self.bink_files.len()
            invariant
                i <= self.bink_files@.len(),
                bink_files@.len() == i,
                forall|j: int| 0 <= j < i ==> (#[trigger] bink_files@[j])@ == self.bink_files@[j]@,
            decreases self.bink_files@.len() - i,
        {
            bink_files.push(self.bink_files[i].clone());
            i += 1;
        }
        assert(clips_of(bink_files@) =~= clips_of(self.bink_files@));
        Movie { bink_files }
    }
}

impl Movie {
    /// Decodes a cutscene chunk into its clips.
    pub fn from_chunk(chunk: Chunk) -> (result: Result<Movie, MovieError>)
        ensures
            match result {
                Ok(movie) => spec_movie(chunk.header.name, chunk.data@) == Ok::<
                    Seq<Seq<u8>>,
                    MovieError,
                >(movie@),
                Err(e) => spec_movie(chunk.header.name, chunk.data@) == Err::<
                    Seq<Seq<u8>>,
                    MovieError,
                >(e),
            },
    {
        if !tag_is(&chunk.header.name, &MOVIE_TAG) {
            return Err(MovieError::NotAMovie);
        }
        let whole: usize = chunk.data.len();
        if whole < LEAD_LEN {
            return Err(MovieError::CorruptedMovie);
        }
        let data = slice_subrange(chunk.data.as_slice(), LEAD_LEN, whole);
        assert(data@ =~= chunk.data@.skip(LEAD_LEN as int));
        let len: usize = data.len();
        let mut binks: Vec<Vec<u8>> = Vec::new();
        let mut offset: usize = 0;
        proof {
            assert(clips_of(binks@) =~= Seq::<Seq<u8>>::empty());
            match spec_scan(data@, 0) {
                Ok(rest) => {
                    assert(Seq::<Seq<u8>>::empty() + rest =~= rest);
                },
                Err(_) => {},
            }
        }
        while offset < len
            invariant
                offset <= len,
                len == data@.len(),
                spec_movie(chunk.header.name, chunk.data@) == spec_scan(data@, 0),
                spec_scan(data@, 0) == prepend_clips(
                    clips_of(binks@),
                    spec_scan(data@, offset as nat),
                ),
            decreases len - offset,
        {
            let ghost here = spec_scan(data@, offset as nat);
            if has_signature(data, offset) {
                if len - offset < 8 {
                    return Err(MovieError::CorruptedMovie);
                }
                let total: u64 = read_le_u32(data, offset + 4) as u64 + CLIP_OVERHEAD;
                if total > (len - offset) as u64 {
                    return Err(MovieError::CorruptedMovie);
                }
                let end: usize = offset + total as usize;
                let clip = slice_to_vec(slice_subrange(data, offset, end));
                let ghost before = binks@;
                binks.push(clip);
                let next: usize = resume_at(end, len);
                proof {
                    let behind = spec_scan(data@, align_up(end as nat));
                    assert(here == prepend_clip(clip@, behind));
                    assert(clips_of(binks@) =~= clips_of(before).push(clip@));
                    lemma_scan_past_end(data@, align_up(end as nat), next as nat);
                    lemma_prepend_clips_push(clips_of(before), clip@, behind);
                }
                offset = next;
            } else {
                let next: usize = if len - offset >= 4 {
                    offset + 4
                } else {
                    len
                };
                proof {
                    assert(here == spec_scan(data@, (offset + 4) as nat));
                    lemma_scan_past_end(data@, (offset + 4) as nat, next as nat);
                }
                offset = next;
            }
        }
        Ok(Movie { bink_files: binks })
    }
}

/// Whether the clip signature stands at `at`.
fn has_signature(data: &[u8], at: usize) -> (found: bool)
    requires
        at <= data@.len(),
    ensures
        found == signature_at(data@, at as int),
{
    data.len() - at >= 3 && data[at] == 0x42 && data[at + 1] == 0x49 && data[at + 2] == 0x4B
}

/// Words without a signature are passed over: where none of the next `words`
/// steps of four bytes finds a signature, the scan goes on behind them.
pub proof fn lemma_scan_skips_gap(data: Seq<u8>, offset: nat, words: nat)
    requires
        forall|at: int|
            offset <= at < offset + 4 * words && (at - offset) % 4 == 0 ==> !#[trigger] signature_at(
                data,
                at,
            ),
    ensures
        spec_scan(data, offset) == spec_scan(data, (offset + 4 * words) as nat),
    decreases words,
{
    if words > 0 {
        assert(!signature_at(data, offset as int));
        lemma_scan_skips_gap(data, (offset + 4) as nat, (words - 1) as nat);
    }
}

/// A clip that lies whole in the data is cut out as it is: it starts at its
/// signature, its length is the value of its size field plus the overhead, and
/// the scan resumes at the next multiple of four behind it.
pub proof fn lemma_scan_cuts_clip(data: Seq<u8>, offset: nat)
    requires
        signature_at(data, offset as int),
        offset + 8 <= data.len(),
        offset + clip_len(data, offset as int) <= data.len(),
    ensures
        spec_scan(data, offset) == prepend_clip(
            data.subrange(offset as int, offset + clip_len(data, offset as int)),
            spec_scan(data, align_up((offset + clip_len(data, offset as int)) as nat)),
        ),
        data.subrange(offset as int, offset + clip_len(data, offset as int)).len() == le_u32(
            data,
            offset as int + 4,
        ) + CLIP_OVERHEAD,
{
}

/// A clip that does not lie whole in the data makes the scan fail.
pub proof fn lemma_scan_refuses_cut_clip(data: Seq<u8>, offset: nat)
    requires
        signature_at(data, offset as int),
        offset + 8 > data.len() || offset + clip_len(data, offset as int) > data.len(),
    ensures
        spec_scan(data, offset) == Err::<Seq<Seq<u8>>, MovieError>(MovieError::CorruptedMovie),
{
}

/// Whether `clip` is a whole clip: it starts with the signature, and its
/// length is the value of its size field plus the overhead.
pub open spec fn is_clip(clip: Seq<u8>) -> bool {
    &&& clip.len() >= 8
    &&& signature_at(clip, 0)
    &&& clip.len() == clip_len(clip, 0)
}

/// Whether `gap` is bytes that the scan passes over: whole words of four
/// bytes, none of which starts with the signature.
pub open spec fn is_quiet(gap: Seq<u8>) -> bool {
    &&& gap.len() % 4 == 0
    &&& forall|at: int| 0 <= at < gap.len() && at % 4 == 0 ==> !#[trigger] signature_at(gap, at)
}

/// A clip and the bytes behind it, up to the next clip or the end.
pub struct ClipSlot {
    pub clip: Seq<u8>,
    pub behind: Seq<u8>,
}

/// Whether a slot holds a whole clip, filled up behind to a multiple of four
/// by bytes of any value, and then nothing but quiet bytes.
pub open spec fn is_slot(slot: ClipSlot) -> bool {
    &&& is_clip(slot.clip)
    &&& slot.behind.len() >= padding(slot.clip.len())
    &&& is_quiet(slot.behind.skip(padding(slot.clip.len()) as int))
}

/// The bytes of a sequence of slots, one after the other.
pub open spec fn slots_bytes(slots: Seq<ClipSlot>) -> Seq<u8>
    decreases slots.len(),
{
    if slots.len() == 0 {
        Seq::empty()
    } else {
        slots[0].clip + slots[0].behind + slots_bytes(slots.skip(1))
    }
}

/// The clips of a sequence of slots.
pub open spec fn slots_clips(slots: Seq<ClipSlot>) -> Seq<Seq<u8>> {
    slots.map_values(|slot: ClipSlot| slot.clip)
}

/// Quiet bytes that lie in the data are passed over.
proof fn lemma_gap_is_passed(data: Seq<u8>, start: int, gap: Seq<u8>)
    requires
        0 <= start,
        start + gap.len() <= data.len(),
        data.subrange(start, start + gap.len()) == gap,
        is_quiet(gap),
    ensures
        spec_scan(data, start as nat) == spec_scan(data, (start + gap.len()) as nat),
{
    let words = gap.len() / 4;
    assert forall|p: int| start <= p < start + 4 * words && (p - start) % 4
        == 0 implies !#[trigger] signature_at(data, p) by {
        let inner = p - start;
        assert(!signature_at(gap, inner));
        assert(gap[inner] == data[p]);
        assert(gap[inner + 1] == data[p + 1]);
        assert(gap[inner + 2] == data[p + 2]);
    }
    lemma_scan_skips_gap(data, start as nat, words);
}

/// A whole clip that lies in the data at a multiple of four is cut out, and
/// the scan resumes behind its fill.
proof fn lemma_clip_is_cut(data: Seq<u8>, at: int, clip: Seq<u8>)
    requires
        0 <= at,
        at % 4 == 0,
        at + clip.len() <= data.len(),
        data.subrange(at, at + clip.len()) == clip,
        is_clip(clip),
    ensures
        spec_scan(data, at as nat) == prepend_clip(
            clip,
            spec_scan(data, (at + clip.len() + padding(clip.len())) as nat),
        ),
{
    let inside = data.subrange(at, at + clip.len());
    assert(inside[0] == data[at]);
    assert(inside[1] == data[at + 1]);
    assert(inside[2] == data[at + 2]);
    assert(inside[4] == data[at + 4]);
    assert(inside[5] == data[at + 5]);
    assert(inside[6] == data[at + 6]);
    assert(inside[7] == data[at + 7]);
    assert(signature_at(data, at));
    assert(clip_len(data, at) == clip.len());
    assert(align_up((at + clip.len()) as nat) == at + clip.len() + padding(clip.len()));
    lemma_scan_cuts_clip(data, at as nat);
}

/// The middle of three parts lies behind the first.
proof fn lemma_middle_part(a: Seq<u8>, b: Seq<u8>, c: Seq<u8>)
    ensures
        (a + b + c).len() == a.len() + b.len() + c.len(),
        (a + b + c).subrange(a.len() as int, (a.len() + b.len()) as int) == b,
{
    assert((a + b + c).subrange(a.len() as int, (a.len() + b.len()) as int) =~= b);
}

/// The bytes up to a slot, the slot, and what follows it, grouped three ways.
proof fn lemma_regroup(
    front: Seq<u8>,
    gap: Seq<u8>,
    clip: Seq<u8>,
    behind: Seq<u8>,
    rest: Seq<u8>,
    fill: int,
)
    requires
        0 <= fill <= behind.len(),
    ensures
        front + gap + (clip + behind + rest) == (front + gap) + clip + (behind + rest),
        front + gap + (clip + behind + rest) == (front + gap + clip + behind.take(fill))
            + behind.skip(fill) + rest,
        (front + gap + clip + behind.take(fill)).len() == front.len() + gap.len() + clip.len()
            + fill,
{
    assert(front + gap + (clip + behind + rest) =~= (front + gap) + clip + (behind + rest));
    assert(front + gap + (clip + behind + rest) =~= (front + gap + clip + behind.take(fill))
        + behind.skip(fill) + rest);
}

/// A length and its padding make whole words.
proof fn lemma_whole_words(front: nat, gap: nat, clip: nat)
    requires
        front % 4 == 0,
        gap % 4 == 0,
    ensures
        (front + gap) % 4 == 0,
        (front + gap + clip + padding(clip)) % 4 == 0,
{
}

/// Quiet bytes at the end of the data: the scan finds nothing more.
proof fn lemma_quiet_end(front: Seq<u8>, gap: Seq<u8>)
    requires
        is_quiet(gap),
    ensures
        spec_scan(front + gap, front.len()) == Ok::<Seq<Seq<u8>>, MovieError>(Seq::empty()),
{
    let data = front + gap;
    lemma_middle_part(front, gap, Seq::empty());
    assert(front + gap + Seq::<u8>::empty() =~= data);
    lemma_gap_is_passed(data, front.len() as int, gap);
}

/// Whether `next_front` and `next_gap` split the bytes up to a slot and the
/// slot itself into a front of whole words that ends behind the fill of the
/// clip, and the quiet bytes behind it.
spec fn is_split_behind(
    front: Seq<u8>,
    gap: Seq<u8>,
    slot: ClipSlot,
    next_front: Seq<u8>,
    next_gap: Seq<u8>,
) -> bool {
    &&& next_front == front + gap + slot.clip + slot.behind.take(
        padding(slot.clip.len()) as int,
    )
    &&& next_gap == slot.behind.skip(padding(slot.clip.len()) as int)
}

/// Quiet bytes and one slot behind a front of whole words: the scan from the
/// end of the front cuts out the clip of the slot and resumes behind its
/// fill, where again quiet bytes lie behind a front of whole words.
proof fn lemma_slot_is_found(
    front: Seq<u8>,
    gap: Seq<u8>,
    slot: ClipSlot,
    rest: Seq<u8>,
    next_front: Seq<u8>,
    next_gap: Seq<u8>,
)
    requires
        front.len() % 4 == 0,
        is_quiet(gap),
        is_slot(slot),
        is_split_behind(front, gap, slot, next_front, next_gap),
    ensures
        next_front.len() % 4 == 0,
        is_quiet(next_gap),
        front + gap + (slot.clip + slot.behind + rest) == next_front + next_gap + rest,
        spec_scan(front + gap + (slot.clip + slot.behind + rest), front.len()) == prepend_clip(
            slot.clip,
            spec_scan(next_front + next_gap + rest, next_front.len()),
        ),
{
    let data = front + gap + (slot.clip + slot.behind + rest);
    let start = front.len() as int;
    let at = start + gap.len();
    let fill = padding(slot.clip.len()) as int;
    lemma_regroup(front, gap, slot.clip, slot.behind, rest, fill);
    lemma_whole_words(front.len(), gap.len(), slot.clip.len());
    lemma_middle_part(front, gap, slot.clip + slot.behind + rest);
    lemma_middle_part(front + gap, slot.clip, slot.behind + rest);
    lemma_gap_is_passed(data, start, gap);
    lemma_clip_is_cut(data, at, slot.clip);
}

/// Quiet bytes and slots behind a front of whole words: the scan from the end
/// of the front finds the clips of the slots.
proof fn lemma_scan_finds_slots(front: Seq<u8>, gap: Seq<u8>, slots: Seq<ClipSlot>)
    requires
        front.len() % 4 == 0,
        is_quiet(gap),
        forall|i: int| 0 <= i < slots.len() ==> is_slot(#[trigger] slots[i]),
    ensures
        spec_scan(front + gap + slots_bytes(slots), front.len()) == Ok::<
            Seq<Seq<u8>>,
            MovieError,
        >(slots_clips(slots)),
    decreases slots.len(),
{
    if slots.len() == 0 {
        assert(front + gap + slots_bytes(slots) =~= front + gap);
        lemma_quiet_end(front, gap);
        assert(slots_clips(slots) =~= Seq::<Seq<u8>>::empty());
    } else {
        let slot = slots[0];
        let others = slots.skip(1);
        let rest = slots_bytes(others);
        let next_front = front + gap + slot.clip + slot.behind.take(
            padding(slot.clip.len()) as int,
        );
        let next_gap = slot.behind.skip(padding(slot.clip.len()) as int);
        lemma_slot_is_found(front, gap, slot, rest, next_front, next_gap);
        assert forall|i: int| 0 <= i < others.len() implies is_slot(#[trigger] others[i]) by {
            assert(others[i] == slots[i + 1]);
        }
        lemma_scan_finds_slots(next_front, next_gap, others);
        assert(seq![slot.clip] + slots_clips(others) =~= slots_clips(slots));
    }
}

/// Clips that lie at multiples of four, with quiet bytes in front of the
/// first and behind each, are found whole and in their order: the cutscene
/// decodes to exactly these clips, each as long as its size field states plus
/// the overhead.
pub proof fn lemma_clips_are_found(block: Seq<u8>, lead: Seq<u8>, slots: Seq<ClipSlot>)
    requires
        block.len() == LEAD_LEN,
        is_quiet(lead),
        forall|i: int| 0 <= i < slots.len() ==> is_slot(#[trigger] slots[i]),
    ensures
        spec_movie(MOVIE_TAG, block + lead + slots_bytes(slots)) == Ok::<
            Seq<Seq<u8>>,
            MovieError,
        >(slots_clips(slots)),
        forall|i: int|
            0 <= i < slots.len() ==> (#[trigger] slots_clips(slots)[i]).len() == le_u32(
                slots[i].clip,
                4,
            ) + CLIP_OVERHEAD,
{
    let data = block + lead + slots_bytes(slots);
    assert(data.skip(LEAD_LEN as int) =~= Seq::<u8>::empty() + lead + slots_bytes(slots));
    lemma_scan_finds_slots(Seq::empty(), lead, slots);
    assert forall|i: int| 0 <= i < slots.len() implies (#[trigger] slots_clips(slots)[i]).len()
        == le_u32(slots[i].clip, 4) + CLIP_OVERHEAD by {
        assert(is_slot(slots[i]));
    }
}

} // verus!
