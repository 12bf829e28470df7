//! A batch of tokens (or token embeddings) to be decoded by llama.cpp.
//!
//! The batch holds the buffers of llama.cpp's `llama_batch` as plain vectors: the token ids,
//! the embedding vectors (as the bit patterns of their `f32` entries), the positions, the
//! sequence ids of each token and the per-token logits flags. `initialized_logits` records the
//! positions whose logits will be computed by the next decode, so that only those are read.

use vstd::prelude::*;

use crate::token::LlamaToken;

verus! {

broadcast use vstd::seq_lib::group_seq_properties;

/// Errors that can occur when adding a token to a batch.
#[derive(Debug, PartialEq, Eq, Structural)]
pub enum BatchAddError {
    /// There was not enough space in the batch to add the token.
    InsufficientSpace(usize),
    /// Empty buffer is provided for [`LlamaBatch::get_one`]
    EmptyBuffer,
}

/// The buffers of a batch, with room for `allocated` tokens.
struct BatchBuffers {
    /// The number of tokens the batch was allocated with. They are safe to write to - but not
    /// necessarily read from as they are not necessarily initialized.
    allocated: usize,
    /// The logits that are initialized: only these may be read after the next decode.
    initialized_logits: Vec<i32>,
    /// The number of tokens in the batch.
    n_tokens: i32,
    /// The token ids; empty for a batch that carries embeddings instead.
    token: Vec<i32>,
    /// The embedding buffer (bit patterns of `f32` values), present only for embedding batches.
    embd: Option<Vec<u32>>,
    /// The position of each token in its sequence.
    pos: Vec<i32>,
    /// The number of sequence ids that each token has.
    n_seq_id: Vec<i32>,
    /// The sequence ids of each token; each entry has room for the batch's `n_seq_max` ids.
    seq_id: Vec<Vec<i32>>,
    /// Whether the logits of each token are computed (1) or not (0).
    logits: Vec<i8>,
}

/// The contents of a [`LlamaBatch`].
pub struct BatchView {
    /// The number of tokens the batch has room for.
    pub allocated: nat,
    /// The number of tokens in the batch.
    pub n_tokens: int,
    /// The positions whose logits the next decode computes, in the order they were recorded.
    pub initialized_logits: Seq<i32>,
    /// The token id buffer.
    pub token: Seq<i32>,
    /// The embedding buffer, if the batch has one.
    pub embd: Option<Seq<u32>>,
    /// The position buffer.
    pub pos: Seq<i32>,
    /// The number of sequence ids of each slot.
    pub n_seq_id: Seq<i32>,
    /// The sequence-id storage of each slot.
    pub seq_id: Seq<Seq<i32>>,
    /// The logits flag of each slot.
    pub logits: Seq<i8>,
}

/// The logits flag that llama.cpp stores for `b`.
pub open spec fn logit_flag(b: bool) -> i8 {
    if b {
        1
    } else {
        0
    }
}

impl BatchView {
    /// `l` may stand in the list of initialized logits: a position within the buffers (of an
    /// allocated batch) whose logits flag is set.
    pub open spec fn listed_logit_ok(self, l: i32) -> bool {
        &&& 0 <= l
        &&& self.allocated > 0 ==> l < self.allocated && self.logits[l as int] == 1
    }

    /// The batch is well formed: the buffers have room for `allocated` tokens, the token count
    /// and each slot's room for sequence ids fit llama.cpp's `int32_t`, and the list of initialized logits holds exactly the
    /// flagged positions among the tokens (plus flagged positions set beyond them).
    pub open spec fn wf(self) -> bool {
        &&& 0 <= self.n_tokens <= i32::MAX
        &&& self.allocated <= i32::MAX
        &&& self.pos.len() == self.allocated
        &&& self.n_seq_id.len() == self.allocated
        &&& self.seq_id.len() == self.allocated
        &&& self.logits.len() == self.allocated
        &&& forall|i: int| 0 <= i < self.seq_id.len() ==> #[trigger] self.seq_id[i].len() <= i32::MAX
        &&& forall|l: i32| #[trigger]
            self.initialized_logits.contains(l) ==> self.listed_logit_ok(l)
        &&& forall|i: int|
            0 <= i < self.n_tokens && i < self.allocated && #[trigger] self.logits[i] == 1
                ==> self.initialized_logits.contains(i as i32)
    }
}

impl View for BatchBuffers {
    type V = BatchView;

    closed spec fn view(&self) -> BatchView {
        BatchView {
            allocated: self.allocated as nat,
            n_tokens: self.n_tokens as int,
            initialized_logits: self.initialized_logits@,
            token: self.token@,
            embd: match &self.embd {
                Some(e) => Some(e@),
                None => None,
            },
            pos: self.pos@,
            n_seq_id: self.n_seq_id@,
            seq_id: self.seq_id@.map_values(|v: Vec<i32>| v@),
            logits: self.logits@,
        }
    }
}

/// The test "differs from `x`".
pub open spec fn differs_from(x: i32) -> spec_fn(i32) -> bool {
    |l: i32| l != x
}

/// `s` with every occurrence of `x` taken out.
pub open spec fn without(s: Seq<i32>, x: i32) -> Seq<i32> {
    s.filter(differs_from(x))
}

/// `without(s, x)` holds what `s` holds, except `x`.
proof fn lemma_without_contains(s: Seq<i32>, x: i32, y: i32)
    ensures
        without(s, x).contains(y) <==> (s.contains(y) && y != x),
{
    let p = differs_from(x);
    if without(s, x).contains(y) {
        s.lemma_filter_contains_rev(p, y);
        let k: int = choose|k: int| 0 <= k < s.filter(p).len() && s.filter(p)[k] == y;
        s.lemma_filter_pred(p, k);
    }
    if s.contains(y) && y != x {
        let k: int = choose|k: int| 0 <= k < s.len() && s[k] == y;
        s.lemma_filter_contains(p, k);
    }
}

/// `s.push(x)` holds what `s` holds, and `x`.
proof fn lemma_push_contains(s: Seq<i32>, x: i32, y: i32)
    ensures
        s.push(x).contains(y) <==> (s.contains(y) || y == x),
{
    if s.contains(y) {
        let k: int = choose|k: int| 0 <= k < s.len() && s[k] == y;
        assert(s.push(x)[k] == y);
    }
    if y == x {
        assert(s.push(x)[s.len() as int] == y);
    }
    if s.push(x).contains(y) {
        let k: int = choose|k: int| 0 <= k < s.push(x).len() && s.push(x)[k] == y;
        if k < s.len() {
            assert(s[k] == y);
        }
    }
}

/// Does `v` hold `x`?
fn contains_value(v: &Vec<i32>, x: i32) -> (b: bool)
    ensures
        b == v@.contains(x),
{
    let mut i: usize = 0;
    while i < v.len()
        invariant
            i <= v@.len(),
            forall|k: int| 0 <= k < i ==> v@[k] != x,
        decreases v@.len() - i,
    {
        if v[i] == x {
            assert(v@[i as int] == x);
            return true;
        }
        i = i + 1;
    }
    false
}

/// Take every occurrence of `x` out of `v`, keeping the order of the rest.
fn remove_value(v: &mut Vec<i32>, x: i32)
    ensures
        final(v)@ == without(old(v)@, x),
{
    let ghost p = differs_from(x);
    let mut kept: Vec<i32> = Vec::new();
    let mut i: usize = 0;
    assert(old(v)@.take(0) =~= Seq::<i32>::empty());
    proof {
        reveal(Seq::filter);
    }
    while i < v.len()
        invariant
            i <= v@.len(),
            v@ == old(v)@,
            p == differs_from(x),
            kept@ == v@.take(i as int).filter(p),
        decreases v@.len() - i,
    {
        let ghost before = v@.take(i as int);
        let ghost next: i32 = v@[i as int];
        assert(v@.take(i as int + 1) =~= before.push(next));
        proof {
            before.lemma_filter_push(next, p);
        }
        if v[i] != x {
            kept.push(v[i]);
        }
        assert(kept@ == v@.take(i as int + 1).filter(p));
        i = i + 1;
    }
    assert(v@.take(i as int) =~= v@);
    *v = kept;
}

/// Overwrite the first `src.len()` entries of `dst` with `src`.
fn write_prefix<T: Copy>(dst: &mut Vec<T>, src: &[T])
    requires
        src@.len() <= old(dst)@.len(),
    ensures
        final(dst)@ == src@ + old(dst)@.skip(src@.len() as int),
{
    let mut i: usize = 0;
    while i < src.len()
        invariant
            i <= src@.len() <= old(dst)@.len(),
            dst@.len() == old(dst)@.len(),
            forall|k: int| 0 <= k < i ==> dst@[k] == src@[k],
            forall|k: int| i <= k < dst@.len() ==> dst@[k] == old(dst)@[k],
        decreases src@.len() - i,
    {
        dst[i] = src[i];
        i = i + 1;
    }
    assert(dst@ =~= src@ + old(dst)@.skip(src@.len() as int));
}

/// Overwrite the first entry of `v` with `x`.
fn set_first(v: &mut Vec<i32>, x: i32)
    requires
        old(v)@.len() > 0,
    ensures
        final(v)@ == old(v)@.update(0, x),
{
    v[0] = x;
}

/// A vector of `n` copies of `x`.
fn filled<T: Copy>(n: usize, x: T) -> (v: Vec<T>)
    ensures
        v@.len() == n,
        forall|i: int| 0 <= i < n ==> v@[i] == x,
{
    let mut v: Vec<T> = Vec::with_capacity(n);
    let mut i: usize = 0;
    while i < n
        invariant
            i <= n,
            v@.len() == i,
            forall|k: int| 0 <= k < i ==> v@[k] == x,
        decreases n - i,
    {
        v.push(x);
        i = i + 1;
    }
    v
}

/// The contents of a fresh batch with room for `n_tokens` tokens, `embd_dim` embedding values
/// per token (none: a token batch) and `n_seq_max` sequence ids per token.
pub open spec fn spec_new_batch(n_tokens: usize, embd_dim: usize, n_seq_max: i32) -> BatchView {
    let n: nat = n_tokens as nat;
    let seq_room: nat = if n_seq_max >= 0 { n_seq_max as nat } else { 0 };
    BatchView {
        allocated: n,
        n_tokens: 0,
        initialized_logits: Seq::empty(),
        token: if embd_dim == 0 { Seq::new(n, |i: int| 0i32) } else { Seq::empty() },
        embd: if embd_dim > 0 { Some(Seq::new((n * embd_dim) as nat, |i: int| 0u32)) } else { None },
        pos: Seq::new(n, |i: int| 0i32),
        n_seq_id: Seq::new(n, |i: int| 0i32),
        seq_id: Seq::new(n, |i: int| Seq::new(seq_room, |j: int| 0i32)),
        logits: Seq::new(n, |i: int| 0i8),
    }
}

/// The contents of the batch over the given tokens that [`LlamaBatch::get_one`] builds.
pub open spec fn spec_get_one(tokens: Seq<LlamaToken>) -> BatchView {
    BatchView {
        allocated: 0,
        n_tokens: tokens.len() as int,
        initialized_logits: seq![(tokens.len() - 1) as i32],
        token: tokens.map_values(|t: LlamaToken| t.0),
        embd: None,
        pos: Seq::empty(),
        n_seq_id: Seq::empty(),
        seq_id: Seq::empty(),
        logits: Seq::empty(),
    }
}

/// The contents after [`LlamaBatch::clear`].
pub open spec fn spec_clear(v: BatchView) -> BatchView {
    BatchView { n_tokens: 0, initialized_logits: Seq::empty(), ..v }
}


impl BatchView {
    /// The tokens lie within the batch's room, as in every batch made by
    /// [`LlamaBatch::new`] or [`LlamaBatch::new_with_embd`].
    pub open spec fn tokens_within_room(self) -> bool {
        self.n_tokens <= self.allocated
    }

    /// There is room for one more token: `n_tokens + 1 <= allocated`.
    pub open spec fn can_add(self) -> bool {
        self.n_tokens + 1 <= self.allocated
    }

    /// The buffers at the next position can take a token id and `n_seq` sequence ids (this
    /// fails for an embedding batch, which has no token buffer, or for more sequence ids than
    /// the batch was made for).
    pub open spec fn has_room_for_token(self, n_seq: nat) -> bool {
        &&& self.n_tokens < self.token.len()
        &&& n_seq <= self.seq_id[self.n_tokens].len()
    }
}

/// The contents after adding `token` at position `pos` of the sequences `seq_ids`, with the
/// given logits flag, in the next free slot of the batch.
pub open spec fn spec_add(
    v: BatchView,
    token: i32,
    pos: i32,
    seq_ids: Seq<i32>,
    logits: bool,
) -> BatchView {
    let off: int = v.n_tokens;
    BatchView {
        allocated: v.allocated,
        n_tokens: off + 1,
        initialized_logits: if logits {
            v.initialized_logits.push(off as i32)
        } else {
            without(v.initialized_logits, off as i32)
        },
        token: v.token.update(off, token),
        embd: v.embd,
        pos: v.pos.update(off, pos),
        n_seq_id: v.n_seq_id.update(off, seq_ids.len() as i32),
        seq_id: v.seq_id.update(off, seq_ids + v.seq_id[off].skip(seq_ids.len() as int)),
        logits: v.logits.update(off, logit_flag(logits)),
    }
}

/// Adding a token keeps the batch well formed and leaves the sizes of all buffers as they were.
pub proof fn lemma_add_keeps_wf(v: BatchView, token: i32, pos: i32, seq_ids: Seq<i32>, logits: bool)
    requires
        v.wf(),
        v.can_add(),
        v.has_room_for_token(seq_ids.len()),
    ensures
        spec_add(v, token, pos, seq_ids, logits).wf(),
        spec_add(v, token, pos, seq_ids, logits).token.len() == v.token.len(),
        spec_add(v, token, pos, seq_ids, logits).seq_id.len() == v.seq_id.len(),
        forall|k: int|
            0 <= k < v.seq_id.len() ==> #[trigger] spec_add(v, token, pos, seq_ids, logits).seq_id[k].len()
                == v.seq_id[k].len(),
{
    let w = spec_add(v, token, pos, seq_ids, logits);
    let off: int = v.n_tokens;
    assert forall|l: i32| #[trigger] w.initialized_logits.contains(l) implies w.listed_logit_ok(l) by {
        if logits {
            lemma_push_contains(v.initialized_logits, off as i32, l);
        } else {
            lemma_without_contains(v.initialized_logits, off as i32, l);
        }
        if l != off as i32 {
            assert(v.listed_logit_ok(l));
        }
    }
    assert forall|i: int|
        0 <= i < w.n_tokens && i < w.allocated && #[trigger] w.logits[i] == 1 implies w.initialized_logits.contains(i as i32) by {
        if logits {
            lemma_push_contains(v.initialized_logits, off as i32, i as i32);
        } else {
            lemma_without_contains(v.initialized_logits, off as i32, i as i32);
        }
        if i != off {
            assert(v.logits[i] == 1);
        }
    }
}

/// The contents after setting the logits flag at `idx`; nothing changes when `idx` lies beyond
/// the batch's room.
pub open spec fn spec_set_logits_at(v: BatchView, idx: int, logits: bool) -> BatchView {
    if idx >= v.allocated {
        v
    } else {
        BatchView {
            logits: v.logits.update(idx, logit_flag(logits)),
            initialized_logits: if logits {
                if v.initialized_logits.contains(idx as i32) {
                    v.initialized_logits
                } else {
                    v.initialized_logits.push(idx as i32)
                }
            } else {
                without(v.initialized_logits, idx as i32)
            },
            ..v
        }
    }
}

/// Setting a logits flag keeps the batch well formed.
pub proof fn lemma_set_logits_at_keeps_wf(v: BatchView, idx: int, logits: bool)
    requires
        v.wf(),
        0 <= idx <= i32::MAX,
    ensures
        spec_set_logits_at(v, idx, logits).wf(),
{
    let w = spec_set_logits_at(v, idx, logits);
    if idx < v.allocated {
        assert forall|l: i32| #[trigger] w.initialized_logits.contains(l) implies w.listed_logit_ok(l) by {
            if logits {
                lemma_push_contains(v.initialized_logits, idx as i32, l);
            } else {
                lemma_without_contains(v.initialized_logits, idx as i32, l);
            }
            if l != idx as i32 {
                assert(v.listed_logit_ok(l));
            }
        }
        assert forall|i: int|
            0 <= i < w.n_tokens && i < w.allocated && #[trigger] w.logits[i] == 1 implies w.initialized_logits.contains(i as i32) by {
            if logits {
                lemma_push_contains(v.initialized_logits, idx as i32, i as i32);
            } else {
                lemma_without_contains(v.initialized_logits, idx as i32, i as i32);
            }
            if i != idx {
                assert(v.logits[i] == 1);
            }
        }
    }
}

/// The number of tokens that [`LlamaBatch::set_embd`] puts in the batch: the number of whole
/// embedding vectors of `dim` values, or, with a position stride, the number of positions
/// divided by the stride.
pub open spec fn embd_token_count(
    embd_len: usize,
    dim: usize,
    positions_len: usize,
    stride: Option<i32>,
) -> usize {
    match stride {
        Some(s) => positions_len / (s as usize),
        None => embd_len / dim,
    }
}

/// What [`LlamaBatch::set_embd`] answers: too many tokens for the batch's room, or a number of
/// sequence ids that is neither 1 nor the number of tokens, is `InsufficientSpace`; a batch
/// without an embedding buffer is `EmptyBuffer`.
pub open spec fn spec_set_embd_result(
    v: BatchView,
    embd_len: usize,
    dim: usize,
    positions_len: usize,
    stride: Option<i32>,
    seq_ids_len: usize,
) -> Result<(), BatchAddError> {
    let actual: usize = embd_token_count(embd_len, dim, positions_len, stride);
    if actual > v.allocated {
        Err(BatchAddError::InsufficientSpace(v.allocated as usize))
    } else if seq_ids_len != 1 && seq_ids_len != actual {
        Err(BatchAddError::InsufficientSpace(v.allocated as usize))
    } else if v.embd is None {
        Err(BatchAddError::EmptyBuffer)
    } else {
        Ok(())
    }
}

/// The sequence id of token `i`: the one shared id, or the token's own.
pub open spec fn seq_id_for(seq_ids: Seq<i32>, i: int) -> i32 {
    if seq_ids.len() == 1 {
        seq_ids[0]
    } else {
        seq_ids[i]
    }
}

/// The contents after a successful [`LlamaBatch::set_embd`]: the embeddings and positions
/// are copied to the front of their buffers, each of the `actual` tokens belongs to one
/// sequence, only the last of them has its logits flag set, and it is the only initialized
/// logit.
pub open spec fn spec_set_embd(
    v: BatchView,
    embd: Seq<u32>,
    dim: usize,
    positions: Seq<i32>,
    stride: Option<i32>,
    seq_ids: Seq<i32>,
) -> BatchView {
    let actual: int = embd_token_count(
        embd.len() as usize,
        dim,
        positions.len() as usize,
        stride,
    ) as int;
    BatchView {
        allocated: v.allocated,
        n_tokens: actual,
        initialized_logits: if actual > 0 {
            seq![(actual - 1) as i32]
        } else {
            Seq::empty()
        },
        token: v.token,
        embd: Some(embd + v.embd.unwrap().skip(embd.len() as int)),
        pos: positions + v.pos.skip(positions.len() as int),
        n_seq_id: Seq::new(
            v.allocated,
            |i: int|
                if i < actual {
                    1i32
                } else {
                    v.n_seq_id[i]
                },
        ),
        seq_id: Seq::new(
            v.allocated,
            |i: int|
                if i < actual && v.seq_id[i].len() > 0 {
                    v.seq_id[i].update(0, seq_id_for(seq_ids, i))
                } else {
                    v.seq_id[i]
                },
        ),
        logits: Seq::new(
            v.allocated,
            |i: int|
                if i < actual {
                    logit_flag(i == actual - 1)
                } else {
                    v.logits[i]
                },
        ),
    }
}

/// The contents after adding the first `k` of `tokens` as one sequence `seq_id`, token `i` at
/// position `i`, with the logits flag set for every token when `logits_all` holds and for the
/// last token of the sequence in any case.
pub open spec fn spec_add_sequence(
    v: BatchView,
    tokens: Seq<i32>,
    seq_id: i32,
    logits_all: bool,
    k: nat,
) -> BatchView
    decreases k,
{
    if k == 0 {
        v
    } else {
        let i: int = k - 1;
        spec_add(
            spec_add_sequence(v, tokens, seq_id, logits_all, i as nat),
            tokens[i],
            i as i32,
            seq![seq_id],
            logits_all || i == tokens.len() - 1,
        )
    }
}

impl BatchView {
    /// There is room for `n` more tokens.
    pub open spec fn can_add_many(self, n: nat) -> bool {
        self.n_tokens + n <= self.allocated
    }

    /// The next `n` slots can each take a token id and one sequence id.
    pub open spec fn has_room_for_sequence(self, n: nat) -> bool {
        &&& self.n_tokens + n <= self.token.len()
        &&& forall|j: int|
            self.n_tokens <= j < self.n_tokens + n ==> #[trigger] self.seq_id[j].len() >= 1
    }
}

/// `seq![x]` holds `x` and nothing else.
proof fn lemma_singleton_contains(x: i32, y: i32)
    ensures
        seq![x].contains(y) <==> y == x,
{
    assert(seq![x] =~= Seq::<i32>::empty().push(x));
    lemma_push_contains(Seq::empty(), x, y);
}

/// A successful `set_embd` leaves the batch well formed.
pub proof fn lemma_set_embd_keeps_wf(
    v: BatchView,
    embd: Seq<u32>,
    dim: usize,
    positions: Seq<i32>,
    stride: Option<i32>,
    seq_ids: Seq<i32>,
)
    requires
        v.wf(),
        dim > 0,
        embd.len() <= usize::MAX,
        positions.len() <= v.allocated,
        spec_set_embd_result(v, embd.len() as usize, dim, positions.len() as usize, stride, seq_ids.len() as usize) is Ok,
    ensures
        spec_set_embd(v, embd, dim, positions, stride, seq_ids).wf(),
{
    let w = spec_set_embd(v, embd, dim, positions, stride, seq_ids);
    let actual: int = w.n_tokens;
    assert forall|l: i32| #[trigger] w.initialized_logits.contains(l) implies w.listed_logit_ok(l) by {
        if actual > 0 {
            lemma_singleton_contains((actual - 1) as i32, l);
        }
    }
    assert forall|i: int|
        0 <= i < w.n_tokens && i < w.allocated && #[trigger] w.logits[i] == 1 implies w.initialized_logits.contains(i as i32) by {
        lemma_singleton_contains((actual - 1) as i32, i as i32);
    }
}

/// Adding the first `k` tokens of a sequence keeps the batch well formed, fills the next `k`
/// slots, and leaves the sizes of all buffers as they were.
pub proof fn lemma_add_sequence_prefix(
    v: BatchView,
    tokens: Seq<i32>,
    seq_id: i32,
    logits_all: bool,
    k: nat,
)
    requires
        v.wf(),
        v.can_add_many(tokens.len()),
        v.has_room_for_sequence(tokens.len()),
        k <= tokens.len(),
    ensures
        spec_add_sequence(v, tokens, seq_id, logits_all, k).wf(),
        spec_add_sequence(v, tokens, seq_id, logits_all, k).n_tokens == v.n_tokens + k,
        spec_add_sequence(v, tokens, seq_id, logits_all, k).allocated == v.allocated,
        spec_add_sequence(v, tokens, seq_id, logits_all, k).token.len() == v.token.len(),
        spec_add_sequence(v, tokens, seq_id, logits_all, k).seq_id.len() == v.seq_id.len(),
        forall|j: int|
            0 <= j < v.seq_id.len() ==> #[trigger] spec_add_sequence(
                v,
                tokens,
                seq_id,
                logits_all,
                k,
            ).seq_id[j].len() == v.seq_id[j].len(),
    decreases k,
{
    if k > 0 {
        let i: int = k - 1;
        lemma_add_sequence_prefix(v, tokens, seq_id, logits_all, i as nat);
        let u = spec_add_sequence(v, tokens, seq_id, logits_all, i as nat);
        assert(v.seq_id[v.n_tokens + i].len() >= 1);
        lemma_add_keeps_wf(u, tokens[i], i as i32, seq![seq_id], logits_all || i == tokens.len() - 1);
    }
}

/// Slot `start + j` holds token `j` of the sequence `tokens`: its id, position `j`, the one
/// sequence id `seq_id`, and the logits flag of `logits_all` or of being the last token.
pub open spec fn sequence_slot_holds(
    w: BatchView,
    start: int,
    tokens: Seq<i32>,
    seq_id: i32,
    logits_all: bool,
    j: int,
) -> bool {
    &&& w.token[start + j] == tokens[j]
    &&& w.pos[start + j] == j
    &&& w.n_seq_id[start + j] == 1
    &&& w.seq_id[start + j][0] == seq_id
    &&& w.logits[start + j] == logit_flag(logits_all || j == tokens.len() - 1)
}

/// The tokens of a sequence land in the next free slots in order: token `j` of the sequence in
/// slot `n_tokens + j`, at position `j`, in the one sequence `seq_id`, with its logits flag set
/// when `logits_all` holds or it is the last token.
pub proof fn law_add_sequence_slots(
    v: BatchView,
    tokens: Seq<i32>,
    seq_id: i32,
    logits_all: bool,
    k: nat,
)
    requires
        v.wf(),
        v.can_add_many(tokens.len()),
        v.has_room_for_sequence(tokens.len()),
        k <= tokens.len(),
    ensures
        forall|j: int|
            0 <= j < k ==> #[trigger] sequence_slot_holds(
                spec_add_sequence(v, tokens, seq_id, logits_all, k),
                v.n_tokens,
                tokens,
                seq_id,
                logits_all,
                j,
            ),
    decreases k,
{
    if k > 0 {
        let i: int = k - 1;
        law_add_sequence_slots(v, tokens, seq_id, logits_all, i as nat);
        lemma_add_sequence_prefix(v, tokens, seq_id, logits_all, i as nat);
        let u = spec_add_sequence(v, tokens, seq_id, logits_all, i as nat);
        let w = spec_add_sequence(v, tokens, seq_id, logits_all, k);
        assert(v.seq_id[v.n_tokens + i].len() >= 1);
        assert forall|j: int| 0 <= j < k implies #[trigger] sequence_slot_holds(
            w,
            v.n_tokens,
            tokens,
            seq_id,
            logits_all,
            j,
        ) by {
            if j < i {
                assert(sequence_slot_holds(u, v.n_tokens, tokens, seq_id, logits_all, j));
            } else {
                let ids = seq![seq_id];
                assert((ids + u.seq_id[u.n_tokens].skip(1))[0] == seq_id);
            }
        }
    }
}

/// Whatever `logits_all` says, after a non-empty sequence is added the last token of the
/// sequence has its logits flag set and is among the initialized logits.
pub proof fn law_add_sequence_last_token_logits(
    v: BatchView,
    tokens: Seq<i32>,
    seq_id: i32,
    logits_all: bool,
)
    requires
        v.wf(),
        v.can_add_many(tokens.len()),
        v.has_room_for_sequence(tokens.len()),
        tokens.len() > 0,
    ensures
        ({
            let w = spec_add_sequence(v, tokens, seq_id, logits_all, tokens.len());
            let last: int = v.n_tokens + tokens.len() - 1;
            &&& w.logits[last] == 1
            &&& w.initialized_logits.contains(last as i32)
        }),
{
    let n: nat = tokens.len();
    let i: nat = (n - 1) as nat;
    lemma_add_sequence_prefix(v, tokens, seq_id, logits_all, i);
    let u = spec_add_sequence(v, tokens, seq_id, logits_all, i);
    lemma_push_contains(u.initialized_logits, u.n_tokens as i32, u.n_tokens as i32);
}

/// Setting a logits flag within the batch's room records the position among the initialized
/// logits exactly when the flag is set.
pub proof fn law_set_logits_at_tracks(v: BatchView, idx: int, logits: bool)
    requires
        v.wf(),
        0 <= idx < v.allocated,
    ensures
        spec_set_logits_at(v, idx, logits).logits[idx] == logit_flag(logits),
        spec_set_logits_at(v, idx, logits).initialized_logits.contains(idx as i32) <==> logits,
{
    lemma_push_contains(v.initialized_logits, idx as i32, idx as i32);
    lemma_without_contains(v.initialized_logits, idx as i32, idx as i32);
}

/// After `set_embd` only the last of the tokens has its logits flag set, and it is the only
/// initialized logit.
pub proof fn law_set_embd_last_token_only(
    v: BatchView,
    embd: Seq<u32>,
    dim: usize,
    positions: Seq<i32>,
    stride: Option<i32>,
    seq_ids: Seq<i32>,
    i: int,
)
    requires
        v.wf(),
        0 <= i < spec_set_embd(v, embd, dim, positions, stride, seq_ids).n_tokens,
        spec_set_embd(v, embd, dim, positions, stride, seq_ids).n_tokens <= v.allocated,
    ensures
        ({
            let w = spec_set_embd(v, embd, dim, positions, stride, seq_ids);
            &&& w.logits[i] == 1 <==> i == w.n_tokens - 1
            &&& w.initialized_logits.contains(i as i32) <==> i == w.n_tokens - 1
        }),
{
    let w = spec_set_embd(v, embd, dim, positions, stride, seq_ids);
    lemma_singleton_contains((w.n_tokens - 1) as i32, i as i32);
}

/// A fresh batch holds no more tokens than it has room for.
pub proof fn law_new_within_room(n_tokens: usize, embd_dim: usize, n_seq_max: i32)
    ensures
        spec_new_batch(n_tokens, embd_dim, n_seq_max).tokens_within_room(),
{
}

/// Clearing, adding a token, adding a sequence and setting a logits flag keep the tokens within
/// the batch's room, and a successful `set_embd` puts them there: a batch made by `new` or
/// `new_with_embd` never holds more tokens than it has room for.
pub proof fn law_tokens_stay_within_room(
    v: BatchView,
    token: i32,
    pos: i32,
    seq_ids: Seq<i32>,
    logits: bool,
    idx: int,
    tokens: Seq<i32>,
    seq_id: i32,
    logits_all: bool,
)
    requires
        v.wf(),
        v.tokens_within_room(),
    ensures
        spec_clear(v).tokens_within_room(),
        v.can_add() ==> spec_add(v, token, pos, seq_ids, logits).tokens_within_room(),
        spec_set_logits_at(v, idx, logits).tokens_within_room(),
        v.can_add_many(tokens.len()) && v.has_room_for_sequence(tokens.len()) ==> spec_add_sequence(
            v,
            tokens,
            seq_id,
            logits_all,
            tokens.len(),
        ).tokens_within_room(),
{
    if v.can_add_many(tokens.len()) && v.has_room_for_sequence(tokens.len()) {
        lemma_add_sequence_prefix(v, tokens, seq_id, logits_all, tokens.len());
    }
}

/// A successful `set_embd` leaves its tokens within the batch's room.
pub proof fn law_set_embd_within_room(
    v: BatchView,
    embd: Seq<u32>,
    dim: usize,
    positions: Seq<i32>,
    stride: Option<i32>,
    seq_ids: Seq<i32>,
)
    requires
        spec_set_embd_result(
            v,
            embd.len() as usize,
            dim,
            positions.len() as usize,
            stride,
            seq_ids.len() as usize,
        ) is Ok,
    ensures
        spec_set_embd(v, embd, dim, positions, stride, seq_ids).tokens_within_room(),
{
}

/// `set_embd` replaces the batch's tokens rather than appending to them: the number of tokens
/// and the initialized logits it leaves depend on its arguments alone, whatever the batch held
/// before, and repeating the same call changes nothing.
pub proof fn law_set_embd_replaces(
    v1: BatchView,
    v2: BatchView,
    embd: Seq<u32>,
    dim: usize,
    positions: Seq<i32>,
    stride: Option<i32>,
    seq_ids: Seq<i32>,
)
    requires
        spec_set_embd_result(
            v1,
            embd.len() as usize,
            dim,
            positions.len() as usize,
            stride,
            seq_ids.len() as usize,
        ) is Ok,
        embd.len() <= v1.embd.unwrap().len(),
        positions.len() <= v1.allocated,
    ensures
        spec_set_embd(v1, embd, dim, positions, stride, seq_ids).n_tokens == spec_set_embd(
            v2,
            embd,
            dim,
            positions,
            stride,
            seq_ids,
        ).n_tokens,
        spec_set_embd(v1, embd, dim, positions, stride, seq_ids).initialized_logits
            == spec_set_embd(v2, embd, dim, positions, stride, seq_ids).initialized_logits,
        spec_set_embd_result(
            spec_set_embd(v1, embd, dim, positions, stride, seq_ids),
            embd.len() as usize,
            dim,
            positions.len() as usize,
            stride,
            seq_ids.len() as usize,
        ) is Ok,
        spec_set_embd(
            spec_set_embd(v1, embd, dim, positions, stride, seq_ids),
            embd,
            dim,
            positions,
            stride,
            seq_ids,
        ) == spec_set_embd(v1, embd, dim, positions, stride, seq_ids),
{
    let w = spec_set_embd(v1, embd, dim, positions, stride, seq_ids);
    let ww = spec_set_embd(w, embd, dim, positions, stride, seq_ids);
    assert(ww.embd.unwrap() =~= w.embd.unwrap());
    assert(ww.pos =~= w.pos);
    assert(ww.n_seq_id =~= w.n_seq_id);
    assert(ww.logits =~= w.logits);
    assert forall|i: int| 0 <= i < w.allocated implies ww.seq_id[i] == w.seq_id[i] by {
        if i < w.n_tokens && v1.seq_id[i].len() > 0 {
            assert(ww.seq_id[i] =~= w.seq_id[i]);
        }
    }
    assert(ww.seq_id =~= w.seq_id);
    assert(ww =~= w);
}

/// Adding a sequence is the same as adding its tokens one by one: before token `k` goes in, the
/// batch is well formed and has room for it, so that `add` succeeds, and the step that puts it
/// in is `add` of the token at position `k` in the one sequence `seq_id`, with the logits flag
/// of `logits_all` or of being the last token.
pub proof fn law_add_sequence_is_repeated_add(
    v: BatchView,
    tokens: Seq<i32>,
    seq_id: i32,
    logits_all: bool,
    k: nat,
)
    requires
        v.wf(),
        v.can_add_many(tokens.len()),
        v.has_room_for_sequence(tokens.len()),
        k < tokens.len(),
    ensures
        ({
            let u = spec_add_sequence(v, tokens, seq_id, logits_all, k);
            &&& u.wf()
            &&& u.n_tokens < i32::MAX
            &&& u.can_add()
            &&& u.has_room_for_token(1)
            &&& spec_add_sequence(v, tokens, seq_id, logits_all, k + 1) == spec_add(
                u,
                tokens[k as int],
                k as i32,
                seq![seq_id],
                logits_all || k == tokens.len() - 1,
            )
        }),
{
    lemma_add_sequence_prefix(v, tokens, seq_id, logits_all, k);
    assert(v.seq_id[v.n_tokens + k].len() >= 1);
}


/// Adding a token fills the next free slot with exactly what was given (the token id, the
/// position `pos` whatever it is, the number and the values of the sequence ids, the logits
/// flag), records the slot among the initialized logits exactly when `logits` holds, and
/// leaves every other slot and every other recorded position as it was.
pub proof fn law_add_fills_next_slot_only(
    v: BatchView,
    token: i32,
    pos: i32,
    seq_ids: Seq<i32>,
    logits: bool,
)
    requires
        v.wf(),
        v.can_add(),
        v.has_room_for_token(seq_ids.len()),
    ensures
        ({
            let w = spec_add(v, token, pos, seq_ids, logits);
            let off = v.n_tokens;
            &&& w.n_tokens == off + 1
            &&& w.allocated == v.allocated
            &&& w.embd == v.embd
            &&& w.token.len() == v.token.len()
            &&& w.token[off] == token
            &&& w.pos[off] == pos
            &&& w.n_seq_id[off] == seq_ids.len()
            &&& w.seq_id[off].len() == v.seq_id[off].len()
            &&& (forall|k: int| 0 <= k < seq_ids.len() ==> #[trigger] w.seq_id[off][k] == seq_ids[k])
            &&& w.logits[off] == (if logits { 1i8 } else { 0i8 })
            &&& (w.initialized_logits.contains(off as i32) <==> logits)
            &&& (forall|j: int| 0 <= j < v.token.len() && j != off ==> #[trigger] w.token[j] == v.token[j])
            &&& (forall|j: int| 0 <= j < v.allocated && j != off ==> #[trigger] w.pos[j] == v.pos[j])
            &&& (forall|j: int|
                0 <= j < v.allocated && j != off ==> #[trigger] w.n_seq_id[j] == v.n_seq_id[j])
            &&& (forall|j: int| 0 <= j < v.allocated && j != off ==> #[trigger] w.seq_id[j] == v.seq_id[j])
            &&& (forall|j: int| 0 <= j < v.allocated && j != off ==> #[trigger] w.logits[j] == v.logits[j])
            &&& (forall|l: i32|
                l as int != off ==> (#[trigger] w.initialized_logits.contains(l)
                    <==> v.initialized_logits.contains(l)))
        }),
{
    let w = spec_add(v, token, pos, seq_ids, logits);
    let off = v.n_tokens;
    lemma_push_contains(v.initialized_logits, off as i32, off as i32);
    lemma_without_contains(v.initialized_logits, off as i32, off as i32);
    assert forall|l: i32| l as int != off implies (#[trigger] w.initialized_logits.contains(l)
        <==> v.initialized_logits.contains(l)) by {
        lemma_push_contains(v.initialized_logits, off as i32, l);
        lemma_without_contains(v.initialized_logits, off as i32, l);
    }
    assert forall|k: int| 0 <= k < seq_ids.len() implies #[trigger] w.seq_id[off][k] == seq_ids[k] by {
        assert((seq_ids + v.seq_id[off].skip(seq_ids.len() as int))[k] == seq_ids[k]);
    }
}

/// Setting the logits flag at `idx` touches nothing but `idx`: every other flag, every other
/// recorded position, the tokens and all other buffers stay as they were. Within the batch's
/// room, the flag at `idx` becomes `logits` and `idx` is recorded exactly when it is set;
/// beyond the room nothing changes at all.
pub proof fn law_set_logits_at_only_idx(v: BatchView, idx: int, logits: bool)
    requires
        v.wf(),
        0 <= idx <= i32::MAX,
    ensures
        ({
            let w = spec_set_logits_at(v, idx, logits);
            &&& w.n_tokens == v.n_tokens
            &&& w.allocated == v.allocated
            &&& w.token == v.token
            &&& w.embd == v.embd
            &&& w.pos == v.pos
            &&& w.n_seq_id == v.n_seq_id
            &&& w.seq_id == v.seq_id
            &&& w.logits.len() == v.logits.len()
            &&& (forall|j: int| 0 <= j < v.logits.len() && j != idx ==> #[trigger] w.logits[j] == v.logits[j])
            &&& (forall|l: i32|
                l as int != idx ==> (#[trigger] w.initialized_logits.contains(l)
                    <==> v.initialized_logits.contains(l)))
            &&& idx < v.allocated ==> w.logits[idx] == (if logits { 1i8 } else { 0i8 })
            &&& idx < v.allocated ==> (w.initialized_logits.contains(idx as i32) <==> logits)
            &&& idx >= v.allocated ==> w == v
        }),
{
    let w = spec_set_logits_at(v, idx, logits);
    if idx < v.allocated {
        lemma_push_contains(v.initialized_logits, idx as i32, idx as i32);
        lemma_without_contains(v.initialized_logits, idx as i32, idx as i32);
        assert forall|l: i32| l as int != idx implies (#[trigger] w.initialized_logits.contains(l)
            <==> v.initialized_logits.contains(l)) by {
            lemma_push_contains(v.initialized_logits, idx as i32, l);
            lemma_without_contains(v.initialized_logits, idx as i32, l);
        }
    }
}

/// After adding the first `k` tokens of a sequence, the slots before the sequence and the
/// slots after it are as they were, and so is whether each of their positions is recorded
/// among the initialized logits.
proof fn lemma_add_sequence_frame(
    v: BatchView,
    tokens: Seq<i32>,
    seq_id: i32,
    logits_all: bool,
    k: nat,
)
    requires
        v.wf(),
        v.can_add_many(tokens.len()),
        v.has_room_for_sequence(tokens.len()),
        k <= tokens.len(),
    ensures
        ({
            let w = spec_add_sequence(v, tokens, seq_id, logits_all, k);
            &&& w.embd == v.embd
            &&& forall|j: int|
                0 <= j < v.token.len() && !(v.n_tokens <= j < v.n_tokens + k) ==> #[trigger] w.token[j]
                    == v.token[j]
            &&& forall|j: int|
                0 <= j < v.allocated && !(v.n_tokens <= j < v.n_tokens + k) ==> {
                    &&& #[trigger] w.pos[j] == v.pos[j]
                    &&& w.n_seq_id[j] == v.n_seq_id[j]
                    &&& w.seq_id[j] == v.seq_id[j]
                    &&& w.logits[j] == v.logits[j]
                }
            &&& forall|l: i32|
                !(v.n_tokens <= l < v.n_tokens + k) ==> (#[trigger] w.initialized_logits.contains(l)
                    <==> v.initialized_logits.contains(l))
        }),
    decreases k,
{
    if k > 0 {
        let i: int = k - 1;
        lemma_add_sequence_frame(v, tokens, seq_id, logits_all, i as nat);
        lemma_add_sequence_prefix(v, tokens, seq_id, logits_all, i as nat);
        let u = spec_add_sequence(v, tokens, seq_id, logits_all, i as nat);
        assert(v.seq_id[v.n_tokens + i].len() >= 1);
        let flag = logits_all || i == tokens.len() - 1;
        law_add_fills_next_slot_only(u, tokens[i], i as i32, seq![seq_id], flag);
        let w = spec_add_sequence(v, tokens, seq_id, logits_all, k);
        assert(w == spec_add(u, tokens[i], i as i32, seq![seq_id], flag));
        let off = u.n_tokens;
        assert forall|j: int|
            0 <= j < v.token.len() && !(v.n_tokens <= j < v.n_tokens + k) implies #[trigger] w.token[j]
            == v.token[j] by {
            assert(j != off);
            assert(u.token[j] == v.token[j]);
        }
        assert forall|j: int| 0 <= j < v.allocated && !(v.n_tokens <= j < v.n_tokens + k) implies {
            &&& #[trigger] w.pos[j] == v.pos[j]
            &&& w.n_seq_id[j] == v.n_seq_id[j]
            &&& w.seq_id[j] == v.seq_id[j]
            &&& w.logits[j] == v.logits[j]
        } by {
            assert(j != off);
            assert(u.pos[j] == v.pos[j]);
            assert(w.n_seq_id[j] == u.n_seq_id[j]);
            assert(w.seq_id[j] == u.seq_id[j]);
            assert(w.logits[j] == u.logits[j]);
        }
        assert forall|l: i32| !(v.n_tokens <= l < v.n_tokens + k) implies (#[trigger] w.initialized_logits.contains(l)
            <==> v.initialized_logits.contains(l)) by {
            assert(l as int != off);
            assert(w.initialized_logits.contains(l) <==> u.initialized_logits.contains(l));
            assert(u.initialized_logits.contains(l) <==> v.initialized_logits.contains(l));
        }
    }
}

/// Adding a sequence leaves the tokens already in the batch as they were: their ids,
/// positions, sequence ids and logits flags, and whether each is recorded among the initialized
/// logits; the slots after the sequence are untouched as well.
pub proof fn law_add_sequence_keeps_other_slots(
    v: BatchView,
    tokens: Seq<i32>,
    seq_id: i32,
    logits_all: bool,
)
    requires
        v.wf(),
        v.can_add_many(tokens.len()),
        v.has_room_for_sequence(tokens.len()),
    ensures
        ({
            let w = spec_add_sequence(v, tokens, seq_id, logits_all, tokens.len());
            &&& w.n_tokens == v.n_tokens + tokens.len()
            &&& forall|j: int| 0 <= j < v.n_tokens ==> #[trigger] w.token[j] == v.token[j]
            &&& forall|j: int|
                0 <= j < v.n_tokens ==> {
                    &&& #[trigger] w.pos[j] == v.pos[j]
                    &&& w.n_seq_id[j] == v.n_seq_id[j]
                    &&& w.seq_id[j] == v.seq_id[j]
                    &&& w.logits[j] == v.logits[j]
                }
            &&& forall|l: i32|
                0 <= l < v.n_tokens ==> (#[trigger] w.initialized_logits.contains(l)
                    <==> v.initialized_logits.contains(l))
            &&& forall|j: int|
                v.n_tokens + tokens.len() <= j < v.allocated ==> #[trigger] w.logits[j]
                    == v.logits[j]
        }),
{
    lemma_add_sequence_frame(v, tokens, seq_id, logits_all, tokens.len());
    lemma_add_sequence_prefix(v, tokens, seq_id, logits_all, tokens.len());
    let w = spec_add_sequence(v, tokens, seq_id, logits_all, tokens.len());
    assert forall|j: int| v.n_tokens + tokens.len() <= j < v.allocated implies #[trigger] w.logits[j]
        == v.logits[j] by {
        assert(w.pos[j] == v.pos[j]);
    }
    assert forall|j: int| 0 <= j < v.n_tokens implies {
        &&& #[trigger] w.pos[j] == v.pos[j]
        &&& w.n_seq_id[j] == v.n_seq_id[j]
        &&& w.seq_id[j] == v.seq_id[j]
        &&& w.logits[j] == v.logits[j]
    } by {
        assert(w.pos[j] == v.pos[j]);
    }
}

/// After a successful `set_embd`, the batch holds as many tokens as the data makes (whole
/// vectors of `dim` values, or positions divided by the stride); each of them belongs to
/// exactly one sequence, its own id or the one shared id; only the last has its logits flag
/// set and is the one initialized logit; the embeddings and positions given lead their
/// buffers; and the slots after the new tokens keep their flags and sequence ids.
pub proof fn law_set_embd_writes(
    v: BatchView,
    embd: Seq<u32>,
    dim: usize,
    positions: Seq<i32>,
    stride: Option<i32>,
    seq_ids: Seq<i32>,
)
    requires
        v.wf(),
        dim > 0,
        spec_set_embd_result(
            v,
            embd.len() as usize,
            dim,
            positions.len() as usize,
            stride,
            seq_ids.len() as usize,
        ) is Ok,
        embd.len() <= usize::MAX,
        embd.len() <= v.embd.unwrap().len(),
        positions.len() <= v.allocated,
    ensures
        ({
            let w = spec_set_embd(v, embd, dim, positions, stride, seq_ids);
            let n = w.n_tokens;
            &&& n == match stride {
                Some(s) => (positions.len() as usize / (s as usize)) as int,
                None => embd.len() as int / dim as int,
            }
            &&& 0 <= n <= v.allocated
            &&& w.allocated == v.allocated
            &&& w.token == v.token
            &&& w.embd.unwrap().len() == v.embd.unwrap().len()
            &&& (forall|k: int| 0 <= k < embd.len() ==> #[trigger] w.embd.unwrap()[k] == embd[k])
            &&& w.pos.len() == v.pos.len()
            &&& (forall|k: int| 0 <= k < positions.len() ==> #[trigger] w.pos[k] == positions[k])
            &&& (forall|i: int| 0 <= i < n ==> #[trigger] w.n_seq_id[i] == 1)
            &&& (forall|i: int|
                0 <= i < n && v.seq_id[i].len() > 0 ==> #[trigger] w.seq_id[i][0] == (if seq_ids.len()
                    == 1 {
                    seq_ids[0]
                } else {
                    seq_ids[i]
                }))
            &&& (forall|i: int| 0 <= i < v.allocated ==> #[trigger] w.seq_id[i].len() == v.seq_id[i].len())
            &&& (forall|i: int| 0 <= i < n ==> (#[trigger] w.logits[i] == 1 <==> i == n - 1))
            &&& (forall|i: int| 0 <= i < n ==> #[trigger] w.logits[i] == 0 || w.logits[i] == 1)
            &&& (forall|l: i32| #[trigger] w.initialized_logits.contains(l) <==> (n > 0 && l == n - 1))
            &&& (forall|i: int|
                n <= i < v.allocated ==> #[trigger] w.logits[i] == v.logits[i] && w.n_seq_id[i]
                    == v.n_seq_id[i] && w.seq_id[i] == v.seq_id[i])
        }),
{
    let w = spec_set_embd(v, embd, dim, positions, stride, seq_ids);
    let n = w.n_tokens;
    assert forall|k: int| 0 <= k < embd.len() implies #[trigger] w.embd.unwrap()[k] == embd[k] by {
        assert((embd + v.embd.unwrap().skip(embd.len() as int))[k] == embd[k]);
    }
    assert forall|k: int| 0 <= k < positions.len() implies #[trigger] w.pos[k] == positions[k] by {
        assert((positions + v.pos.skip(positions.len() as int))[k] == positions[k]);
    }
    assert forall|l: i32| #[trigger] w.initialized_logits.contains(l) <==> (n > 0 && l == n - 1) by {
        if n > 0 {
            lemma_singleton_contains((n - 1) as i32, l);
        }
    }
    assert forall|i: int| 0 <= i < n implies (#[trigger] w.logits[i] == 1 <==> i == n - 1) by {
        assert(w.logits[i] == logit_flag(i == n - 1));
    }
    assert forall|i: int| 0 <= i < n implies #[trigger] w.logits[i] == 0 || w.logits[i] == 1 by {
        assert(w.logits[i] == logit_flag(i == n - 1));
    }
    assert forall|i: int| n <= i < v.allocated implies #[trigger] w.logits[i] == v.logits[i]
        && w.n_seq_id[i] == v.n_seq_id[i] && w.seq_id[i] == v.seq_id[i] by {
        assert(w.logits[i] == v.logits[i]);
    }
    assert forall|i: int|
        0 <= i < n && v.seq_id[i].len() > 0 implies #[trigger] w.seq_id[i][0] == (if seq_ids.len() == 1 {
        seq_ids[0]
    } else {
        seq_ids[i]
    }) by {
        assert(w.seq_id[i] == v.seq_id[i].update(0, seq_id_for(seq_ids, i)));
    }
}

/// `get_one` gives a batch that holds exactly the given tokens, all of them, in order, with the
/// last of them as the one initialized logit, and no room of its own.
pub proof fn law_get_one_holds_all_tokens(tokens: Seq<LlamaToken>)
    requires
        1 <= tokens.len() <= i32::MAX,
    ensures
        ({
            let w = spec_get_one(tokens);
            &&& w.n_tokens == tokens.len()
            &&& w.allocated == 0
            &&& w.token.len() == tokens.len()
            &&& forall|i: int| 0 <= i < tokens.len() ==> #[trigger] w.token[i] == tokens[i].0
            &&& w.initialized_logits.len() == 1
            &&& w.initialized_logits[0] == tokens.len() - 1
        }),
{
}

/// Clearing keeps the batch's room: a cleared batch takes as many tokens as it was made for.
pub proof fn law_clear_keeps_room(v: BatchView)
    requires
        v.wf(),
    ensures
        spec_clear(v).wf(),
        spec_clear(v).n_tokens == 0,
        spec_clear(v).can_add_many(v.allocated),
        spec_clear(v).initialized_logits.len() == 0,
{
}

impl BatchBuffers {
    /// Reset the number of tokens and the initialized logits.
    fn clear(&mut self)
        requires
            old(self)@.wf(),
        ensures
            final(self)@ == spec_clear(old(self)@),
            final(self)@.wf(),
    {
        self.n_tokens = 0;
        self.initialized_logits.clear();
        assert(self@ =~= spec_clear(old(self)@));
    }

    /// Buffers with no room at all.
    fn empty() -> (b: Self)
        ensures
            b@ == spec_new_batch(0, 0, 0),
            b@.wf(),
    {
        Self::new_with_embd(0, 0, 0)
    }

    /// Fresh buffers, with an embedding buffer when `embd_dim > 0`.
    fn new_with_embd(n_tokens: usize, embd_dim: usize, n_seq_max: i32) -> (b: Self)
        requires
            n_tokens <= i32::MAX,
            embd_dim <= i32::MAX,
            n_tokens * embd_dim <= usize::MAX,
        ensures
            b@ == spec_new_batch(n_tokens, embd_dim, n_seq_max),
            b@.wf(),
    {
        let token = if embd_dim == 0 {
            filled(n_tokens, 0i32)
        } else {
            Vec::new()
        };
        let embd = if embd_dim > 0 {
            Some(filled(n_tokens * embd_dim, 0u32))
        } else {
            None
        };
        let seq_room: usize = if n_seq_max >= 0 {
            n_seq_max as usize
        } else {
            0
        };
        let ghost room_seq = Seq::new(seq_room as nat, |j: int| 0i32);
        let mut seq_id: Vec<Vec<i32>> = Vec::with_capacity(n_tokens);
        let mut i: usize = 0;
        while i < n_tokens
            invariant
                i <= n_tokens,
                seq_id@.len() == i,
                room_seq == Seq::new(seq_room as nat, |j: int| 0i32),
                forall|k: int| 0 <= k < i ==> #[trigger] seq_id@[k]@ == room_seq,
            decreases n_tokens - i,
        {
            let room = filled(seq_room, 0i32);
            assert(room@ =~= room_seq);
            seq_id.push(room);
            i = i + 1;
        }
        let b = BatchBuffers {
            allocated: n_tokens,
            initialized_logits: Vec::new(),
            n_tokens: 0,
            token,
            embd,
            pos: filled(n_tokens, 0i32),
            n_seq_id: filled(n_tokens, 0i32),
            seq_id,
            logits: filled(n_tokens, 0i8),
        };
        let ghost expected = spec_new_batch(n_tokens, embd_dim, n_seq_max);
        assert(b@.seq_id =~= expected.seq_id);
        assert(b@.token =~= expected.token);
        assert(b@.pos =~= expected.pos);
        assert(b@.n_seq_id =~= expected.n_seq_id);
        assert(b@.logits =~= expected.logits);
        if embd_dim > 0 {
            assert(b@.embd.unwrap() =~= expected.embd.unwrap());
        }
        assert(b@ =~= spec_new_batch(n_tokens, embd_dim, n_seq_max));
        b
    }

    /// Buffers holding `tokens`, without room of their own.
    fn get_one(tokens: &[LlamaToken]) -> (r: Result<Self, BatchAddError>)
        requires
            tokens@.len() <= i32::MAX,
        ensures
            tokens@.len() == 0 <==> r is Err,
            r is Err ==> r == Err::<Self, _>(BatchAddError::EmptyBuffer),
            r matches Ok(b) ==> b@ == spec_get_one(tokens@) && b@.wf(),
    {
        if tokens.len() == 0 {
            return Err(BatchAddError::EmptyBuffer);
        }
        let mut ids: Vec<i32> = Vec::with_capacity(tokens.len());
        let mut i: usize = 0;
        while i < tokens.len()
            invariant
                i <= tokens@.len(),
                ids@ == tokens@.take(i as int).map_values(|t: LlamaToken| t.0),
            decreases tokens@.len() - i,
        {
            ids.push(tokens[i].0);
            i = i + 1;
            assert(ids@ =~= tokens@.take(i as int).map_values(|t: LlamaToken| t.0));
        }
        assert(tokens@.take(i as int) =~= tokens@);
        let last: i32 = (tokens.len() - 1) as i32;
        let mut initialized_logits: Vec<i32> = Vec::new();
        initialized_logits.push(last);
        let b = BatchBuffers {
            allocated: 0,
            initialized_logits,
            n_tokens: tokens.len() as i32,
            token: ids,
            embd: None,
            pos: Vec::new(),
            n_seq_id: Vec::new(),
            seq_id: Vec::new(),
            logits: Vec::new(),
        };
        assert(b@.token =~= spec_get_one(tokens@).token);
        assert(b@.initialized_logits =~= spec_get_one(tokens@).initialized_logits);
        assert(b@.seq_id =~= spec_get_one(tokens@).seq_id);
        assert(b@.pos =~= spec_get_one(tokens@).pos);
        assert(b@ =~= spec_get_one(tokens@));
        proof {
            assert forall|l: i32| #[trigger] b@.initialized_logits.contains(l) implies b@.listed_logit_ok(l) by {
                lemma_push_contains(Seq::empty(), last, l);
                assert(Seq::<i32>::empty().push(last) =~= b@.initialized_logits);
            }
        }
        Ok(b)
    }

    /// Write one token into the next free slot.
    fn add(&mut self, token: LlamaToken, pos: i32, seq_ids: &[i32], logits: bool) -> (r: Result<
        (),
        BatchAddError,
    >)
        requires
            old(self)@.wf(),
            old(self)@.n_tokens < i32::MAX,
            old(self)@.can_add() ==> old(self)@.has_room_for_token(seq_ids@.len()),
        ensures
            final(self)@.wf(),
            old(self)@.can_add() <==> r is Ok,
            old(self)@.can_add() ==> final(self)@ == spec_add(
                old(self)@,
                token.0,
                pos,
                seq_ids@,
                logits,
            ),
            !old(self)@.can_add() ==> r == Err::<(), _>(
                BatchAddError::InsufficientSpace(old(self)@.allocated as usize),
            ) && final(self)@ == old(self)@,
    {
        let next: i32 = self.n_tokens + 1;
        if self.allocated < next as usize {
            return Err(BatchAddError::InsufficientSpace(self.allocated));
        }
        proof {
            lemma_add_keeps_wf(self@, token.0, pos, seq_ids@, logits);
        }
        let ghost v0 = self@;
        let offset: i32 = self.n_tokens;
        let offset_usize: usize = offset as usize;
        self.token[offset_usize] = token.0;
        self.pos[offset_usize] = pos;
        self.n_seq_id[offset_usize] = seq_ids.len() as i32;
        write_prefix(&mut self.seq_id[offset_usize], seq_ids);
        self.logits[offset_usize] = if logits {
            1
        } else {
            0
        };
        if logits {
            self.initialized_logits.push(offset);
        } else {
            remove_value(&mut self.initialized_logits, offset);
        }
        self.n_tokens = next;
        assert(self@.seq_id =~= spec_add(v0, token.0, pos, seq_ids@, logits).seq_id);
        assert(self@ =~= spec_add(v0, token.0, pos, seq_ids@, logits));
        Ok(())
    }

    /// Add `tokens` as one sequence, token `i` at position `i`.
    fn add_sequence(&mut self, tokens: &[LlamaToken], seq_id: i32, logits_all: bool) -> (r:
        Result<(), BatchAddError>)
        requires
            old(self)@.wf(),
            old(self)@.can_add_many(tokens@.len()) ==> old(self)@.has_room_for_sequence(
                tokens@.len(),
            ),
        ensures
            final(self)@.wf(),
            old(self)@.can_add_many(tokens@.len()) <==> r is Ok,
            r is Ok ==> final(self)@ == spec_add_sequence(
                old(self)@,
                tokens@.map_values(|t: LlamaToken| t.0),
                seq_id,
                logits_all,
                tokens@.len(),
            ),
            r is Err ==> r == Err::<(), _>(
                BatchAddError::InsufficientSpace(old(self)@.allocated as usize),
            ) && final(self)@ == old(self)@,
    {
        let n_tokens_0: usize = self.n_tokens as usize;
        let n_tokens: usize = tokens.len();
        if self.allocated < n_tokens_0 || self.allocated - n_tokens_0 < n_tokens {
            return Err(BatchAddError::InsufficientSpace(self.allocated));
        }
        let last_index: i32 = if n_tokens == 0 {
            0
        } else {
            (n_tokens - 1) as i32
        };
        let ghost v0 = self@;
        let ghost ids = tokens@.map_values(|t: LlamaToken| t.0);
        let mut seq: Vec<i32> = Vec::new();
        seq.push(seq_id);
        assert(seq@ =~= seq![seq_id]);
        let mut i: usize = 0;
        while i < n_tokens
            invariant
                i <= n_tokens == tokens@.len(),
                v0.wf(),
                v0.can_add_many(tokens@.len()),
                v0.has_room_for_sequence(tokens@.len()),
                n_tokens_0 == v0.n_tokens,
                ids == tokens@.map_values(|t: LlamaToken| t.0),
                seq@ == seq![seq_id],
                last_index == if n_tokens == 0 { 0 } else { n_tokens - 1 },
                self@ == spec_add_sequence(v0, ids, seq_id, logits_all, i as nat),
            decreases n_tokens - i,
        {
            proof {
                lemma_add_sequence_prefix(v0, ids, seq_id, logits_all, i as nat);
                assert(v0.seq_id[v0.n_tokens + i].len() >= 1);
            }
            let position: i32 = i as i32;
            match self.add(tokens[i], position, seq.as_slice(), logits_all || position == last_index) {
                Ok(()) => {},
                Err(e) => {
                    return Err(e);
                },
            }
            i = i + 1;
        }
        proof {
            lemma_add_sequence_prefix(v0, ids, seq_id, logits_all, n_tokens as nat);
        }
        Ok(())
    }

    /// Write embeddings, positions, sequence ids and logits flags for the new tokens.
    fn set_embd(
        &mut self,
        embd_data: &[u32],
        dim: usize,
        positions: &[i32],
        stride: Option<i32>,
        seq_ids: &[i32],
    ) -> (r: Result<(), BatchAddError>)
        requires
            old(self)@.wf(),
            dim > 0,
            stride != Some(0i32),
            spec_set_embd_result(
                old(self)@,
                embd_data@.len() as usize,
                dim,
                positions@.len() as usize,
                stride,
                seq_ids@.len() as usize,
            ) is Ok ==> embd_data@.len() <= old(self)@.embd.unwrap().len() && positions@.len()
                <= old(self)@.allocated,
        ensures
            final(self)@.wf(),
            r == spec_set_embd_result(
                old(self)@,
                embd_data@.len() as usize,
                dim,
                positions@.len() as usize,
                stride,
                seq_ids@.len() as usize,
            ),
            r is Ok ==> final(self)@ == spec_set_embd(
                old(self)@,
                embd_data@,
                dim,
                positions@,
                stride,
                seq_ids@,
            ),
            r is Err ==> final(self)@ == old(self)@,
    {
        let n_tokens: usize = embd_data.len() / dim;
        let actual_n_tokens: usize = match stride {
            Some(s) => {
                assert(s != 0 ==> s as usize != 0) by (bit_vector);
                positions.len() / (s as usize)
            },
            None => n_tokens,
        };
        if actual_n_tokens > self.allocated {
            return Err(BatchAddError::InsufficientSpace(self.allocated));
        }
        // seq_ids: one shared id, or one per token

        if seq_ids.len() != 1 && seq_ids.len() != actual_n_tokens {
            return Err(BatchAddError::InsufficientSpace(self.allocated));
        }
        if self.embd.is_none() {
            return Err(BatchAddError::EmptyBuffer);
        }
        proof {
            lemma_set_embd_keeps_wf(self@, embd_data@, dim, positions@, stride, seq_ids@);
        }
        let ghost v0 = self@;
        let ghost expected = spec_set_embd(v0, embd_data@, dim, positions@, stride, seq_ids@);
        let mut buffer = self.embd.take().unwrap();
        write_prefix(&mut buffer, embd_data);
        self.embd = Some(buffer);
        write_prefix(&mut self.pos, positions);
        self.n_tokens = actual_n_tokens as i32;
        let mut i: usize = 0;
        while i < actual_n_tokens
            invariant
                i <= actual_n_tokens <= self.allocated,
                actual_n_tokens == expected.n_tokens,
                seq_ids@.len() == 1 || seq_ids@.len() == actual_n_tokens,
                expected == spec_set_embd(v0, embd_data@, dim, positions@, stride, seq_ids@),
                v0.wf(),
                self.allocated == v0.allocated,
                self.n_tokens == actual_n_tokens,
                self.token@ == v0.token,
                self@.embd == expected.embd,
                self.pos@ == expected.pos,
                self.initialized_logits@ == v0.initialized_logits,
                self.n_seq_id@.len() == v0.allocated,
                self.seq_id@.len() == v0.allocated,
                self.logits@.len() == v0.allocated,
                forall|k: int| 0 <= k < i ==> self.n_seq_id@[k] == expected.n_seq_id[k],
                forall|k: int| i <= k < v0.allocated ==> self.n_seq_id@[k] == v0.n_seq_id[k],
                forall|k: int| 0 <= k < i ==> #[trigger] self.seq_id@[k]@ == expected.seq_id[k],
                forall|k: int| i <= k < v0.allocated ==> #[trigger] self.seq_id@[k]@ == v0.seq_id[k],
                forall|k: int| 0 <= k < i ==> self.logits@[k] == expected.logits[k],
                forall|k: int| i <= k < v0.allocated ==> self.logits@[k] == v0.logits[k],
            decreases actual_n_tokens - i,
        {
            let sid: i32 = if seq_ids.len() == 1 {
                seq_ids[0]
            } else {
                seq_ids[i]
            };
            self.n_seq_id[i] = 1;
            if self.seq_id[i].len() > 0 {
                set_first(&mut self.seq_id[i], sid);
            }
            self.logits[i] = if i == actual_n_tokens - 1 {
                1
            } else {
                0
            };
            i = i + 1;
        }
        // the last token's logits are the initialized ones

        self.initialized_logits.clear();
        if actual_n_tokens > 0 {
            self.initialized_logits.push((actual_n_tokens - 1) as i32);
        }
        assert(self@.n_seq_id =~= expected.n_seq_id);
        assert(self@.seq_id =~= expected.seq_id);
        assert(self@.logits =~= expected.logits);
        assert(self@.initialized_logits =~= expected.initialized_logits);
        assert(self@ =~= expected);
        Ok(())
    }

    /// Set the logits flag of one slot and record it.
    fn set_logits_at(&mut self, idx: i32, logits: bool)
        requires
            old(self)@.wf(),
            idx >= 0,
        ensures
            final(self)@ == spec_set_logits_at(old(self)@, idx as int, logits),
            final(self)@.wf(),
    {
        proof {
            lemma_set_logits_at_keeps_wf(self@, idx as int, logits);
        }
        let idx_usize: usize = idx as usize;
        if idx_usize >= self.allocated {
            return;
        }
        let ghost v0 = self@;
        self.logits[idx_usize] = if logits {
            1
        } else {
            0
        };
        if logits {
            if !contains_value(&self.initialized_logits, idx) {
                self.initialized_logits.push(idx);
            }
        } else {
            remove_value(&mut self.initialized_logits, idx);
        }
        assert(self@ =~= spec_set_logits_at(v0, idx as int, logits));
    }
}

/// A batch of tokens or embeddings, with room for `allocated` tokens.
pub struct LlamaBatch {
    buf: BatchBuffers,
}

impl LlamaBatch {
    /// A batch is always well formed.
    #[verifier::type_invariant]
    spec fn buffers_wf(self) -> bool {
        self.buf@.wf()
    }
}

impl View for LlamaBatch {
    type V = BatchView;

    closed spec fn view(&self) -> BatchView {
        self.buf@
    }
}

impl LlamaBatch {
    /// Clear the batch. This does not free the memory associated with the batch, but it does reset
    /// the number of tokens to 0.
    pub fn clear(&mut self)
        ensures
            final(self)@ == spec_clear(old(self)@),
            final(self)@.wf(),
            old(self)@.tokens_within_room() ==> final(self)@.tokens_within_room(),
    {
        proof {
            use_type_invariant(&*self);
        }
        let mut buf = BatchBuffers::empty();
        std::mem::swap(&mut buf, &mut self.buf);
        buf.clear();
        self.buf = buf;
    }

    /// Create a new `LlamaBatch` that can contain up to `n_tokens` tokens.
    ///
    /// # Arguments
    ///
    /// - `n_tokens`: the maximum number of tokens that can be added to the batch
    /// - `n_seq_max`: the maximum number of sequences that can be added to the batch (generally 1 unless you know what you are doing)
    ///
    /// # Panics
    ///
    /// Panics if `n_tokens` is greater than `i32::MAX`: required here.
    pub fn new(n_tokens: usize, n_seq_max: i32) -> (b: Self)
        requires
            n_tokens <= i32::MAX,
        ensures
            b@ == spec_new_batch(n_tokens, 0, n_seq_max),
            b@.wf(),
            b@.tokens_within_room(),
    {
        Self::new_with_embd(n_tokens, 0, n_seq_max)
    }

    /// Create a new `LlamaBatch` with embedding dimension, for use with [`Self::set_embd`].
    ///
    /// When `embd_dim > 0`, the batch will allocate an embedding buffer suitable for
    /// embedding-based inference (e.g., audio/ASR models), and no token buffer.
    ///
    /// # Panics
    ///
    /// Panics if `n_tokens` or `embd_dim` is greater than `i32::MAX`: required here, as is that
    /// the embedding buffer's size `n_tokens * embd_dim` fits in a `usize`.
    pub fn new_with_embd(n_tokens: usize, embd_dim: usize, n_seq_max: i32) -> (b: Self)
        requires
            n_tokens <= i32::MAX,
            embd_dim <= i32::MAX,
            n_tokens * embd_dim <= usize::MAX,
        ensures
            b@ == spec_new_batch(n_tokens, embd_dim, n_seq_max),
            b@.wf(),
            b@.tokens_within_room(),
    {
        LlamaBatch { buf: BatchBuffers::new_with_embd(n_tokens, embd_dim, n_seq_max) }
    }

    /// ``llama_batch_get_one``
    /// Return batch for single sequence of tokens
    ///
    /// NOTE: this is a helper function to facilitate transition to the new batch API
    ///
    /// The batch has no room of its own (`allocated` is 0), holds `tokens` as its tokens, and
    /// records the last of them as the one whose logits are computed.
    ///
    /// # Errors
    /// If the provided token buffer is empty.
    ///
    /// # Panics
    /// If the number of tokens in ``tokens`` exceeds [`i32::MAX`]: required here.
    pub fn get_one(tokens: &[LlamaToken]) -> (r: Result<Self, BatchAddError>)
        requires
            tokens@.len() <= i32::MAX,
        ensures
            tokens@.len() == 0 <==> r is Err,
            r is Err ==> r == Err::<Self, _>(BatchAddError::EmptyBuffer),
            r matches Ok(b) ==> b@ == spec_get_one(tokens@) && b@.wf(),
            r matches Ok(b) ==> b@.n_tokens == tokens@.len() && b@.token.len() == tokens@.len(),
            r matches Ok(b) ==> forall|i: int|
                0 <= i < tokens@.len() ==> #[trigger] b@.token[i] == tokens@[i].0,
            r matches Ok(b) ==> b@.initialized_logits == seq![(tokens@.len() - 1) as i32],
    {
        proof {
            if tokens@.len() >= 1 {
                law_get_one_holds_all_tokens(tokens@);
            }
        }
        match BatchBuffers::get_one(tokens) {
            Ok(buf) => Ok(LlamaBatch { buf }),
            Err(e) => Err(e),
        }
    }

    /// add a token to the batch for sequences `seq_ids` at position `pos`. If `logits` is true, the
    /// token will be initialized and can be read from after the next decode.
    ///
    /// The token goes into the next free slot (`n_tokens`); the count of tokens grows by one.
    ///
    /// # Errors
    ///
    /// returns a error if there is insufficient space in the buffer; the batch is then unchanged.
    ///
    /// Requires that `n_tokens + 1` fits in an `i32`, and that the slot has room for the token
    /// id and the sequence ids (llama.cpp's buffers have no bounds of their own).
    pub fn add(&mut self, token: LlamaToken, pos: i32, seq_ids: &[i32], logits: bool) -> (r: Result<
        (),
        BatchAddError,
    >)
        requires
            old(self)@.n_tokens < i32::MAX,
            old(self)@.can_add() ==> old(self)@.has_room_for_token(seq_ids@.len()),
        ensures
            final(self)@.wf(),
            old(self)@.can_add() <==> r is Ok,
            old(self)@.can_add() ==> final(self)@ == spec_add(
                old(self)@,
                token.0,
                pos,
                seq_ids@,
                logits,
            ),
            !old(self)@.can_add() ==> r == Err::<(), _>(
                BatchAddError::InsufficientSpace(old(self)@.allocated as usize),
            ) && final(self)@ == old(self)@,
            old(self)@.tokens_within_room() ==> final(self)@.tokens_within_room(),
            old(self)@.can_add() ==> {
                let off = old(self)@.n_tokens;
                &&& final(self)@.token[off] == token.0
                &&& final(self)@.pos[off] == pos
                &&& final(self)@.n_seq_id[off] == seq_ids@.len()
                &&& (final(self)@.initialized_logits.contains(off as i32) <==> logits)
                &&& forall|j: int|
                    0 <= j < old(self)@.allocated && j != off ==> #[trigger] final(self)@.logits[j]
                        == old(self)@.logits[j] && final(self)@.pos[j] == old(self)@.pos[j]
            },
    {
        proof {
            use_type_invariant(&*self);
            if self@.can_add() {
                law_add_fills_next_slot_only(self@, token.0, pos, seq_ids@, logits);
            }
        }
        let mut buf = BatchBuffers::empty();
        std::mem::swap(&mut buf, &mut self.buf);
        let r = buf.add(token, pos, seq_ids, logits);
        self.buf = buf;
        r
    }

    /// Add a sequence of tokens to the batch for the given sequence id. If `logits_all` is true, the
    /// tokens will be initialized and can be read from after the next decode.
    ///
    /// Either way the last token in the sequence will have its logits set to `true`.
    ///
    /// The tokens go into the next free slots, in order; token `i` of the sequence gets
    /// position `i`.
    ///
    /// # Errors
    ///
    /// Returns an error if there is insufficient space in the buffer; the batch is then
    /// unchanged.
    ///
    /// Requires that the slots have room for a token id and one sequence id each (llama.cpp's
    /// buffers have no bounds of their own).
    pub fn add_sequence(&mut self, tokens: &[LlamaToken], seq_id: i32, logits_all: bool) -> (r:
        Result<(), BatchAddError>)
        requires
            old(self)@.can_add_many(tokens@.len()) ==> old(self)@.has_room_for_sequence(
                tokens@.len(),
            ),
        ensures
            final(self)@.wf(),
            old(self)@.can_add_many(tokens@.len()) <==> r is Ok,
            r is Ok ==> final(self)@ == spec_add_sequence(
                old(self)@,
                tokens@.map_values(|t: LlamaToken| t.0),
                seq_id,
                logits_all,
                tokens@.len(),
            ),
            r is Err ==> r == Err::<(), _>(
                BatchAddError::InsufficientSpace(old(self)@.allocated as usize),
            ) && final(self)@ == old(self)@,
            old(self)@.tokens_within_room() ==> final(self)@.tokens_within_room(),
            r is Ok ==> forall|j: int|
                0 <= j < old(self)@.n_tokens ==> #[trigger] final(self)@.logits[j] == old(self)@.logits[j] && final(self)@.token[j] == old(self)@.token[j]
                    && final(self)@.pos[j] == old(self)@.pos[j],
            r is Ok ==> forall|l: i32|
                0 <= l < old(self)@.n_tokens ==> (#[trigger] final(self)@.initialized_logits.contains(l) <==> old(self)@.initialized_logits.contains(l)),
    {
        proof {
            use_type_invariant(&*self);
        }
        let ghost v0 = self@;
        let mut buf = BatchBuffers::empty();
        std::mem::swap(&mut buf, &mut self.buf);
        let r = buf.add_sequence(tokens, seq_id, logits_all);
        self.buf = buf;
        proof {
            if r is Ok {
                law_add_sequence_keeps_other_slots(
                    v0,
                    tokens@.map_values(|t: LlamaToken| t.0),
                    seq_id,
                    logits_all,
                );
                assert forall|j: int| 0 <= j < v0.n_tokens implies #[trigger] self@.logits[j]
                    == v0.logits[j] && self@.token[j] == v0.token[j] && self@.pos[j] == v0.pos[j] by {
                    assert(self@.pos[j] == v0.pos[j]);
                    assert(self@.token[j] == v0.token[j]);
                }
                lemma_add_sequence_prefix(
                    v0,
                    tokens@.map_values(|t: LlamaToken| t.0),
                    seq_id,
                    logits_all,
                    tokens@.len(),
                );
            }
        }
        r
    }

    /// Batch-set embedding data into the batch, for audio/embedding input scenarios (e.g., Qwen3 ASR).
    ///
    /// Writes the batch's embedding, position, sequence-id and logits buffers. After this call,
    /// `n_tokens` is `embd_data.len() / dim` (or `positions.len() / stride` if stride is provided).
    ///
    /// # Arguments
    ///
    /// * `embd_data` - Flattened embedding vectors (length = n_tokens * dim), each `f32` given
    ///   by its bit pattern
    /// * `dim` - Embedding dimension per token; not 0 (it is divided by)
    /// * `positions` - Position encoding array for each token
    /// * `stride` - Optional position stride (e.g., Qwen3 uses 4x stride); not 0
    /// * `seq_ids` - Sequence IDs for each token. Two modes:
    ///   - `&[id]` (length 1): all tokens share the same seq_id
    ///   - `&[id0, id1, ...]` (length == actual_n_tokens): each token gets its own seq_id
    ///
    /// Requires that the embeddings and positions fit their buffers (llama.cpp's buffers have
    /// no bounds of their own). A slot without sequence-id storage (a batch made
    /// with `n_seq_max <= 0`) gets no sequence id written.
    pub fn set_embd(
        &mut self,
        embd_data: &[u32],
        dim: usize,
        positions: &[i32],
        stride: Option<i32>,
        seq_ids: &[i32],
    ) -> (r: Result<(), BatchAddError>)
        requires
            dim > 0,
            stride != Some(0i32),
            spec_set_embd_result(
                old(self)@,
                embd_data@.len() as usize,
                dim,
                positions@.len() as usize,
                stride,
                seq_ids@.len() as usize,
            ) is Ok ==> embd_data@.len() <= old(self)@.embd.unwrap().len() && positions@.len()
                <= old(self)@.allocated,
        ensures
            final(self)@.wf(),
            r == spec_set_embd_result(
                old(self)@,
                embd_data@.len() as usize,
                dim,
                positions@.len() as usize,
                stride,
                seq_ids@.len() as usize,
            ),
            r is Ok ==> final(self)@ == spec_set_embd(
                old(self)@,
                embd_data@,
                dim,
                positions@,
                stride,
                seq_ids@,
            ),
            r is Err ==> final(self)@ == old(self)@,
            r is Ok ==> final(self)@.tokens_within_room(),
            old(self)@.tokens_within_room() ==> final(self)@.tokens_within_room(),
            r is Ok ==> forall|i: int|
                0 <= i < final(self)@.n_tokens ==> #[trigger] final(self)@.n_seq_id[i] == 1,
            r is Ok ==> forall|i: int|
                0 <= i < final(self)@.n_tokens ==> (#[trigger] final(self)@.logits[i] == 1 <==> i
                    == final(self)@.n_tokens - 1),
    {
        let embd_len: usize = embd_data.len();
        proof {
            use_type_invariant(&*self);
            assert(embd_len == embd_data@.len());
            if spec_set_embd_result(
                self@,
                embd_data@.len() as usize,
                dim,
                positions@.len() as usize,
                stride,
                seq_ids@.len() as usize,
            ) is Ok {
                law_set_embd_writes(self@, embd_data@, dim, positions@, stride, seq_ids@);
            }
        }
        let mut buf = BatchBuffers::empty();
        std::mem::swap(&mut buf, &mut self.buf);
        let r = buf.set_embd(embd_data, dim, positions, stride, seq_ids);
        self.buf = buf;
        r
    }

    /// Does [`LlamaBatch::set_embd`] with arguments of these lengths succeed (and so write the
    /// batch's buffers)? Callers test this before the call to check that the data fits.
    pub fn set_embd_succeeds(
        &self,
        embd_len: usize,
        dim: usize,
        positions_len: usize,
        stride: Option<i32>,
        seq_ids_len: usize,
    ) -> (b: bool)
        requires
            dim > 0,
            stride != Some(0i32),
        ensures
            b == spec_set_embd_result(self@, embd_len, dim, positions_len, stride, seq_ids_len) is Ok,
    {
        let actual_n_tokens: usize = match stride {
            Some(s) => {
                assert(s != 0 ==> s as usize != 0) by (bit_vector);
                positions_len / (s as usize)
            },
            None => embd_len / dim,
        };
        actual_n_tokens <= self.buf.allocated && (seq_ids_len == 1 || seq_ids_len
            == actual_n_tokens) && self.buf.embd.is_some()
    }

    /// Set the logits flag at a specific token position.
    ///
    /// Used in multi-sequence batch scenarios to enable logits at additional positions
    /// after calling `set_embd()`. Since `set_embd()` only sets logits for the last
    /// token, this method is needed to enable logits for the last token of each
    /// individual sequence when multiple sequences are merged into one batch.
    ///
    /// Positions beyond the batch's room are ignored.
    ///
    /// # Arguments
    /// * `idx` - Token index in the batch (0-based); must not be negative (panics in that case: required here)
    /// * `logits` - Whether to enable logits computation
    pub fn set_logits_at(&mut self, idx: i32, logits: bool)
        requires
            idx >= 0,
        ensures
            final(self)@ == spec_set_logits_at(old(self)@, idx as int, logits),
            final(self)@.wf(),
            old(self)@.tokens_within_room() ==> final(self)@.tokens_within_room(),
            forall|j: int|
                0 <= j < old(self)@.logits.len() && j != idx ==> #[trigger] final(self)@.logits[j]
                    == old(self)@.logits[j],
            forall|l: i32|
                l != idx ==> (#[trigger] final(self)@.initialized_logits.contains(l) <==> old(self)@.initialized_logits.contains(l)),
            idx < old(self)@.allocated ==> (final(self)@.initialized_logits.contains(idx) <==> logits),
    {
        proof {
            use_type_invariant(&*self);
            law_set_logits_at_only_idx(self@, idx as int, logits);
        }
        let mut buf = BatchBuffers::empty();
        std::mem::swap(&mut buf, &mut self.buf);
        buf.set_logits_at(idx, logits);
        self.buf = buf;
    }

    /// The number of tokens the batch has room for.
    pub fn allocated(&self) -> (n: usize)
        ensures
            n == self@.allocated,
    {
        self.buf.allocated
    }

    /// The positions whose logits the next decode computes, in the order they were recorded.
    pub fn initialized_logits(&self) -> (l: &[i32])
        ensures
            l@ == self@.initialized_logits,
    {
        self.buf.initialized_logits.as_slice()
    }

    /// The token id buffer (empty for an embedding batch).
    pub fn token_ids(&self) -> (t: &[i32])
        ensures
            t@ == self@.token,
    {
        self.buf.token.as_slice()
    }

    /// The embedding buffer, as the bit patterns of its `f32` values, if the batch has one.
    pub fn embd_bits(&self) -> (e: Option<&[u32]>)
        ensures
            e is Some <==> self@.embd is Some,
            e matches Some(b) ==> b@ == self@.embd.unwrap(),
    {
        match &self.buf.embd {
            Some(b) => Some(b.as_slice()),
            None => None,
        }
    }

    /// The position buffer.
    pub fn positions(&self) -> (p: &[i32])
        ensures
            p@ == self@.pos,
    {
        self.buf.pos.as_slice()
    }

    /// The buffer of sequence-id counts.
    pub fn n_seq_ids(&self) -> (n: &[i32])
        ensures
            n@ == self@.n_seq_id,
    {
        self.buf.n_seq_id.as_slice()
    }

    /// The sequence-id storage of slot `i`.
    pub fn seq_ids_at(&self, i: usize) -> (s: &[i32])
        requires
            i < self@.seq_id.len(),
        ensures
            s@ == self@.seq_id[i as int],
    {
        self.buf.seq_id[i].as_slice()
    }

    /// The logits flags buffer.
    pub fn logits_flags(&self) -> (f: &[i8])
        ensures
            f@ == self@.logits,
    {
        self.buf.logits.as_slice()
    }

    /// Returns the number of tokens in the batch.
    pub fn n_tokens(&self) -> (n: i32)
        ensures
            n == self@.n_tokens,
    {
        self.buf.n_tokens
    }
}

} // verus!
