//! The unit under evolution: a byte string, optionally with a generalized form that
//! alternates fixed byte chunks and gaps.

use vstd::prelude::*;

verus! {

/// One element of a generalized form.
#[derive(Clone, Debug, PartialEq, Eq)]
pub enum Segment {
    /// Bytes that the input needs where they stand.
    Fixed(Vec<u8>),
    /// A place where any bytes, or none, may stand.
    Gap,
}

/// The mathematical value of a `Segment`.
pub enum Chunk {
    Fixed(Seq<u8>),
    Gap,
}

impl DeepView for Segment {
    type V = Chunk;

    open spec fn deep_view(&self) -> Chunk {
        match self {
            Segment::Fixed(bytes) => Chunk::Fixed(bytes@),
            Segment::Gap => Chunk::Gap,
        }
    }
}

/// An input: the bytes handed to the target, and the generalized form once it has
/// been inferred.
#[derive(Clone, Debug, PartialEq, Eq)]
pub struct Input {
    pub bytes: Vec<u8>,
    pub generalized: Option<Vec<Segment>>,
}

/// The mathematical value of an `Input`.
pub struct InputView {
    pub bytes: Seq<u8>,
    pub generalized: Option<Seq<Chunk>>,
}

impl DeepView for Input {
    type V = InputView;

    open spec fn deep_view(&self) -> InputView {
        InputView {
            bytes: self.bytes@,
            generalized: match self.generalized {
                Some(segments) => Some(segments.deep_view()),
                None => None,
            },
        }
    }
}

/// The bytes that a chunk contributes once every gap is filled with nothing.
pub open spec fn chunk_bytes(chunk: Chunk) -> Seq<u8> {
    match chunk {
        Chunk::Fixed(bytes) => bytes,
        Chunk::Gap => Seq::empty(),
    }
}

/// The byte string of a generalized form with every gap filled with nothing: the
/// fixed chunks, concatenated in order.
pub open spec fn flatten(chunks: Seq<Chunk>) -> Seq<u8>
    decreases chunks.len(),
{
    if chunks.len() == 0 {
        Seq::empty()
    } else {
        flatten(chunks.drop_last()) + chunk_bytes(chunks.last())
    }
}

/// The bytes that a mask keeps: its `Some` entries, in order.
pub open spec fn kept(mask: Seq<Option<u8>>) -> Seq<u8>
    decreases mask.len(),
{
    if mask.len() == 0 {
        Seq::empty()
    } else {
        match mask.last() {
            Some(byte) => kept(mask.drop_last()).push(byte),
            None => kept(mask.drop_last()),
        }
    }
}

/// The shape that a generalized form has while it is being read: it starts with a
/// gap, gaps and fixed chunks alternate, and no fixed chunk is empty.
pub open spec fn alternating(chunks: Seq<Chunk>) -> bool {
    &&& chunks.len() >= 1
    &&& chunks[0] is Gap
    &&& forall|i: int|
        0 <= i < chunks.len() - 1 ==> (#[trigger] chunks[i] is Gap) != (chunks[i + 1] is Gap)
    &&& forall|i: int|
        0 <= i < chunks.len() && #[trigger] chunks[i] is Fixed ==> chunks[i]->Fixed_0.len() > 0
}

/// A generalized form in normal shape: it starts and ends with a gap, gaps and fixed
/// chunks alternate, and no fixed chunk is empty.
pub open spec fn well_shaped(chunks: Seq<Chunk>) -> bool {
    &&& alternating(chunks)
    &&& chunks.last() is Gap
}

/// The form read so far, extended by one mask entry: a dropped byte opens a gap
/// unless one is open, a kept byte extends the open chunk or starts one.
pub open spec fn absorb_entry(chunks: Seq<Chunk>, entry: Option<u8>) -> Seq<Chunk>
    recommends
        chunks.len() > 0,
{
    match entry {
        None => if chunks.last() is Gap {
            chunks
        } else {
            chunks.push(Chunk::Gap)
        },
        Some(byte) => match chunks.last() {
            Chunk::Fixed(bytes) => chunks.drop_last().push(Chunk::Fixed(bytes.push(byte))),
            Chunk::Gap => chunks.push(Chunk::Fixed(seq![byte])),
        },
    }
}

/// The form of the first `n` entries of a mask, before the closing gap is added.
pub open spec fn chunks_upto(mask: Seq<Option<u8>>, n: nat) -> Seq<Chunk>
    recommends
        n <= mask.len(),
    decreases n,
{
    if n == 0 {
        seq![Chunk::Gap]
    } else {
        absorb_entry(chunks_upto(mask, (n - 1) as nat), mask[n - 1])
    }
}

/// The generalized form of a mask: every maximal run of kept bytes is a fixed chunk,
/// every maximal run of dropped bytes is one gap, and a gap stands at either end.
pub open spec fn chunks_of_mask(mask: Seq<Option<u8>>) -> Seq<Chunk> {
    let body = chunks_upto(mask, mask.len());
    if body.last() is Gap {
        body
    } else {
        body.push(Chunk::Gap)
    }
}

/// Appending a chunk appends its bytes.
pub proof fn lemma_flatten_push(chunks: Seq<Chunk>, chunk: Chunk)
    ensures
        flatten(chunks.push(chunk)) == flatten(chunks) + chunk_bytes(chunk),
{
    assert(chunks.push(chunk).drop_last() =~= chunks);
}

/// The flattened form is the concatenation of the flattened halves.
pub proof fn lemma_flatten_concat(left: Seq<Chunk>, right: Seq<Chunk>)
    ensures
        flatten(left + right) == flatten(left) + flatten(right),
    decreases right.len(),
{
    if right.len() == 0 {
        assert(left + right =~= left);
        assert(flatten(left) + flatten(right) =~= flatten(left));
    } else {
        lemma_flatten_concat(left, right.drop_last());
        assert((left + right).drop_last() =~= left + right.drop_last());
        assert(flatten(left + right) =~= flatten(left) + flatten(right));
    }
}

/// Reading one more mask entry keeps the shape and appends the entry's byte, if it
/// keeps one, to the flattened form.
pub proof fn lemma_absorb_entry(chunks: Seq<Chunk>, entry: Option<u8>)
    requires
        alternating(chunks),
    ensures
        alternating(absorb_entry(chunks, entry)),
        entry is Some ==> flatten(absorb_entry(chunks, entry)) == flatten(chunks).push(entry->0),
        entry is None ==> flatten(absorb_entry(chunks, entry)) == flatten(chunks),
{
    let after = absorb_entry(chunks, entry);
    match entry {
        None => {
            if !(chunks.last() is Gap) {
                lemma_flatten_push(chunks, Chunk::Gap);
                assert(flatten(chunks) + chunk_bytes(Chunk::Gap) =~= flatten(chunks));
            }
        },
        Some(byte) => {
            match chunks.last() {
                Chunk::Fixed(bytes) => {
                    let grown = Chunk::Fixed(bytes.push(byte));
                    lemma_flatten_push(chunks.drop_last(), grown);
                    assert(flatten(chunks.drop_last()) + bytes.push(byte) =~= (flatten(
                        chunks.drop_last(),
                    ) + bytes).push(byte));
                    assert forall|i: int| 0 <= i < after.len() - 1 implies (
                    #[trigger] after[i] is Gap) != (after[i + 1] is Gap) by {
                        assert(after[i] == chunks[i]);
                        assert((chunks[i] is Gap) != (chunks[i + 1] is Gap));
                    }
                },
                Chunk::Gap => {
                    lemma_flatten_push(chunks, Chunk::Fixed(seq![byte]));
                    assert(flatten(chunks) + seq![byte] =~= flatten(chunks).push(byte));
                },
            }
        },
    }
}

/// The partial form of a mask prefix has the reading shape and flattens to the bytes
/// that the prefix keeps.
pub proof fn lemma_chunks_upto(mask: Seq<Option<u8>>, n: nat)
    requires
        n <= mask.len(),
    ensures
        alternating(chunks_upto(mask, n)),
        flatten(chunks_upto(mask, n)) == kept(mask.subrange(0, n as int)),
    decreases n,
{
    if n == 0 {
        lemma_flatten_push(Seq::<Chunk>::empty(), Chunk::Gap);
        assert(seq![Chunk::Gap] =~= Seq::<Chunk>::empty().push(Chunk::Gap));
        assert(flatten(Seq::<Chunk>::empty()) + chunk_bytes(Chunk::Gap) =~= Seq::<u8>::empty());
        assert(mask.subrange(0, 0) =~= Seq::<Option<u8>>::empty());
    } else {
        lemma_chunks_upto(mask, (n - 1) as nat);
        lemma_absorb_entry(chunks_upto(mask, (n - 1) as nat), mask[n - 1]);
        let prefix = mask.subrange(0, n as int);
        assert(prefix.drop_last() =~= mask.subrange(0, n - 1));
        assert(prefix.last() == mask[n - 1]);
    }
}

/// The generalized form of a mask is well shaped and flattens to the kept bytes.
pub proof fn lemma_chunks_of_mask(mask: Seq<Option<u8>>)
    ensures
        well_shaped(chunks_of_mask(mask)),
        flatten(chunks_of_mask(mask)) == kept(mask),
{
    lemma_chunks_upto(mask, mask.len());
    assert(mask.subrange(0, mask.len() as int) =~= mask);
    let body = chunks_upto(mask, mask.len());
    if !(body.last() is Gap) {
        lemma_flatten_push(body, Chunk::Gap);
        assert(flatten(body.push(Chunk::Gap)) =~= flatten(body));
    }
}

/// Copies a byte string.
pub fn copy_bytes(bytes: &Vec<u8>) -> (copy: Vec<u8>)
    ensures
        copy@ == bytes@,
{
    let mut copy: Vec<u8> = Vec::new();
    let mut i: usize = 0;
    while i < bytes.len()
        invariant
            i <= bytes.len(),
            copy@ == bytes@.subrange(0, i as int),
        decreases bytes.len() - i,
    {
        copy.push(bytes[i]);
        assert(bytes@.subrange(0, i + 1) =~= bytes@.subrange(0, i as int).push(bytes@[i as int]));
        i = i + 1;
    }
    assert(bytes@.subrange(0, i as int) =~= bytes@);
    copy
}

/// Copies one segment.
pub fn copy_segment(segment: &Segment) -> (copy: Segment)
    ensures
        copy.deep_view() == segment.deep_view(),
{
    match segment {
        Segment::Fixed(bytes) => Segment::Fixed(copy_bytes(bytes)),
        Segment::Gap => Segment::Gap,
    }
}

/// Copies a generalized form.
pub fn copy_segments(segments: &Vec<Segment>) -> (copy: Vec<Segment>)
    ensures
        copy.deep_view() == segments.deep_view(),
{
    let mut copy: Vec<Segment> = Vec::new();
    let mut i: usize = 0;
    while i < segments.len()
        invariant
            i <= segments.len(),
            copy@.len() == i,
            forall|k: int| 0 <= k < i ==> copy@[k].deep_view() == segments@[k].deep_view(),
        decreases segments.len() - i,
    {
        copy.push(copy_segment(&segments[i]));
        i = i + 1;
    }
    assert(copy.deep_view() =~= segments.deep_view());
    copy
}

/// Resolves a generalized form to raw bytes: every gap becomes nothing and the fixed
/// chunks are concatenated.
pub fn concretize(segments: &Vec<Segment>) -> (bytes: Vec<u8>)
    ensures
        bytes@ == flatten(segments.deep_view()),
{
    let ghost chunks = segments.deep_view();
    let mut bytes: Vec<u8> = Vec::new();
    let mut i: usize = 0;
    proof {
        assert(chunks.subrange(0, 0) =~= Seq::<Chunk>::empty());
    }
    while i < segments.len()
        invariant
            i <= segments.len(),
            chunks == segments.deep_view(),
            chunks.len() == segments.len(),
            bytes@ == flatten(chunks.subrange(0, i as int)),
        decreases segments.len() - i,
    {
        proof {
            let next = chunks.subrange(0, i + 1);
            assert(next.drop_last() =~= chunks.subrange(0, i as int));
            assert(next.last() == segments@[i as int].deep_view());
        }
        match &segments[i] {
            Segment::Fixed(fixed) => {
                let ghost base = bytes@;
                let mut j: usize = 0;
                while j < fixed.len()
                    invariant
                        j <= fixed.len(),
                        bytes@ == base + fixed@.subrange(0, j as int),
                    decreases fixed.len() - j,
                {
                    bytes.push(fixed[j]);
                    assert(fixed@.subrange(0, j + 1) =~= fixed@.subrange(0, j as int).push(
                        fixed@[j as int],
                    ));
                    assert(bytes@ =~= base + fixed@.subrange(0, j + 1));
                    j = j + 1;
                }
                assert(fixed@.subrange(0, j as int) =~= fixed@);
            },
            Segment::Gap => {
                assert(bytes@ + Seq::<u8>::empty() =~= bytes@);
            },
        }
        i = i + 1;
    }
    proof {
        assert(chunks.subrange(0, i as int) =~= chunks);
    }
    bytes
}

/// Builds the generalized form of a mask, in which `None` marks a byte that the
/// input does not need.
pub fn segments_from_mask(mask: &Vec<Option<u8>>) -> (segments: Vec<Segment>)
    ensures
        segments.deep_view() == chunks_of_mask(mask@),
        well_shaped(segments.deep_view()),
        flatten(segments.deep_view()) == kept(mask@),
{
    let mut segments: Vec<Segment> = Vec::new();
    segments.push(Segment::Gap);
    let mut run: Vec<u8> = Vec::new();
    let mut i: usize = 0;
    proof {
        assert(segments.deep_view() =~= seq![Chunk::Gap]);
    }
    while i < mask.len()
        invariant
            i <= mask.len(),
            segments@.len() >= 1,
            segments.deep_view().last() is Gap,
            run@.len() == 0 ==> chunks_upto(mask@, i as nat) == segments.deep_view(),
            run@.len() > 0 ==> chunks_upto(mask@, i as nat) == segments.deep_view().push(
                Chunk::Fixed(run@),
            ),
        decreases mask.len() - i,
    {
        let ghost before = chunks_upto(mask@, i as nat);
        let ghost held = segments.deep_view();
        match mask[i] {
            None => {
                if run.len() > 0 {
                    let mut done: Vec<u8> = Vec::new();
                    std::mem::swap(&mut run, &mut done);
                    segments.push(Segment::Fixed(done));
                    segments.push(Segment::Gap);
                    proof {
                        assert(segments.deep_view() =~= before.push(Chunk::Gap));
                    }
                }
            },
            Some(byte) => {
                let ghost prior = run@;
                run.push(byte);
                proof {
                    if prior.len() > 0 {
                        assert(before.drop_last() =~= held);
                        assert(before.last() == Chunk::Fixed(prior));
                    } else {
                        assert(before.last() is Gap);
                        assert(run@ =~= seq![byte]);
                    }
                    assert(absorb_entry(before, Some(byte)) == held.push(Chunk::Fixed(run@)));
                }
            },
        }
        i = i + 1;
    }
    if run.len() > 0 {
        let ghost body = chunks_upto(mask@, mask@.len());
        segments.push(Segment::Fixed(run));
        segments.push(Segment::Gap);
        proof {
            assert(segments.deep_view() =~= body.push(Chunk::Gap));
        }
    }
    proof {
        lemma_chunks_of_mask(mask@);
    }
    segments
}

/// The mask that keeps every byte of an input.
pub fn full_mask(bytes: &Vec<u8>) -> (mask: Vec<Option<u8>>)
    ensures
        mask@.len() == bytes@.len(),
        forall|i: int| 0 <= i < bytes@.len() ==> mask@[i] == Some(bytes@[i]),
        kept(mask@) == bytes@,
{
    let mut mask: Vec<Option<u8>> = Vec::new();
    let mut i: usize = 0;
    while i < bytes.len()
        invariant
            i <= bytes.len(),
            mask@.len() == i,
            forall|k: int| 0 <= k < i ==> mask@[k] == Some(bytes@[k]),
            kept(mask@) == bytes@.subrange(0, i as int),
        decreases bytes.len() - i,
    {
        let ghost prior = mask@;
        mask.push(Some(bytes[i]));
        proof {
            assert(mask@.drop_last() =~= prior);
            assert(bytes@.subrange(0, i + 1) =~= bytes@.subrange(0, i as int).push(
                bytes@[i as int],
            ));
        }
        i = i + 1;
    }
    assert(bytes@.subrange(0, i as int) =~= bytes@);
    mask
}

impl Input {
    /// An input of raw bytes with no generalized form.
    pub fn from_bytes(bytes: Vec<u8>) -> (input: Input)
        ensures
            input.bytes@ == bytes@,
            input.generalized is None,
    {
        Input { bytes, generalized: None }
    }

    /// The input that a generalized form stands for: its bytes are the form with
    /// every gap filled with nothing, and it carries the form along.
    pub fn from_segments(segments: Vec<Segment>) -> (input: Input)
        ensures
            input.bytes@ == flatten(segments.deep_view()),
            input.deep_view().generalized == Some(segments.deep_view()),
    {
        let bytes = concretize(&segments);
        Input { bytes, generalized: Some(segments) }
    }

    /// A copy of the input.
    pub fn duplicate(&self) -> (copy: Input)
        ensures
            copy.deep_view() == self.deep_view(),
    {
        let bytes = copy_bytes(&self.bytes);
        let generalized = match &self.generalized {
            Some(segments) => Some(copy_segments(segments)),
            None => None,
        };
        Input { bytes, generalized }
    }

    /// The number of bytes handed to the target.
    pub fn len(&self) -> (n: usize)
        ensures
            n == self.bytes@.len(),
    {
        self.bytes.len()
    }
}

/// Whether two byte strings are equal.
pub fn bytes_equal(a: &Vec<u8>, b: &Vec<u8>) -> (same: bool)
    ensures
        same == (a@ == b@),
{
    if a.len() != b.len() {
        return false;
    }
    let mut i: usize = 0;
    while i < a.len()
        invariant
            i <= a.len(),
            a.len() == b.len(),
            forall|k: int| 0 <= k < i ==> a@[k] == b@[k],
        decreases a.len() - i,
    {
        if a[i] != b[i] {
            return false;
        }
        i = i + 1;
    }
    assert(a@ =~= b@);
    true
}

/// The bytes handed to the target when a stored test case is replayed: the file's
/// content, closed by a zero byte unless it already ends in one.
pub open spec fn terminated(bytes: Seq<u8>) -> Seq<u8> {
    if bytes.last() != 0 {
        bytes.push(0)
    } else {
        bytes
    }
}

/// Prepares the content of a test case file for replay. An empty file has no last
/// byte to look at and is not accepted.
pub fn nul_terminated(bytes: Vec<u8>) -> (out: Vec<u8>)
    requires
        bytes@.len() > 0,
    ensures
        out@ == terminated(bytes@),
        out@.last() == 0,
{
    let mut out = bytes;
    if out[out.len() - 1] != 0 {
        out.push(0);
    }
    out
}

} // verus!
