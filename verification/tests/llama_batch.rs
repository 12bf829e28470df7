use llama_cpp_2::llama_batch::{BatchAddError, LlamaBatch};
use llama_cpp_2::token::LlamaToken;

#[test]
fn new_batch_is_empty() {
    let batch = LlamaBatch::new(512, 1);
    assert_eq!(batch.n_tokens(), 0);
    assert_eq!(batch.allocated(), 512);
    assert!(batch.initialized_logits().is_empty());
    assert_eq!(batch.token_ids().len(), 512);
    assert!(batch.embd_bits().is_none());
    assert_eq!(batch.positions().len(), 512);
    assert_eq!(batch.seq_ids_at(0).len(), 1);
}

#[test]
fn new_embedding_batch_has_no_token_buffer() {
    let batch = LlamaBatch::new_with_embd(3, 4, 2);
    assert_eq!(batch.allocated(), 3);
    assert_eq!(batch.token_ids().len(), 0);
    assert_eq!(batch.embd_bits().map(|e| e.len()), Some(12));
    assert_eq!(batch.seq_ids_at(2).len(), 2);
    assert_eq!(batch.logits_flags(), &[0, 0, 0]);
}

#[test]
fn add_writes_next_slot() {
    let mut batch = LlamaBatch::new(4, 2);
    assert_eq!(batch.add(LlamaToken(11), 0, &[0], false), Ok(()));
    assert_eq!(batch.add(LlamaToken(12), 1, &[0, 1], true), Ok(()));
    assert_eq!(batch.n_tokens(), 2);
    assert_eq!(&batch.token_ids()[..2], &[11, 12]);
    assert_eq!(&batch.positions()[..2], &[0, 1]);
    assert_eq!(&batch.n_seq_ids()[..2], &[1, 2]);
    assert_eq!(batch.seq_ids_at(0)[0], 0);
    assert_eq!(batch.seq_ids_at(1), &[0, 1]);
    assert_eq!(&batch.logits_flags()[..2], &[0, 1]);
    assert_eq!(batch.initialized_logits(), &[1]);
}

#[test]
fn add_without_room_is_insufficient_space() {
    let mut batch = LlamaBatch::new(1, 1);
    assert_eq!(batch.add(LlamaToken(1), 0, &[0], true), Ok(()));
    assert_eq!(
        batch.add(LlamaToken(2), 1, &[0], true),
        Err(BatchAddError::InsufficientSpace(1))
    );
    assert_eq!(batch.n_tokens(), 1);
    assert_eq!(batch.token_ids(), &[1]);
    assert_eq!(batch.initialized_logits(), &[0]);
}

#[test]
fn add_to_zero_sized_batch_fails() {
    let mut batch = LlamaBatch::new(0, 1);
    assert_eq!(
        batch.add(LlamaToken(2), 0, &[0], true),
        Err(BatchAddError::InsufficientSpace(0))
    );
}

#[test]
fn add_sequence_sets_last_logits() {
    let mut batch = LlamaBatch::new(8, 1);
    let tokens = [LlamaToken(5), LlamaToken(6), LlamaToken(7)];
    assert_eq!(batch.add_sequence(&tokens, 3, false), Ok(()));
    assert_eq!(batch.n_tokens(), 3);
    assert_eq!(&batch.token_ids()[..3], &[5, 6, 7]);
    assert_eq!(&batch.positions()[..3], &[0, 1, 2]);
    assert_eq!(&batch.logits_flags()[..3], &[0, 0, 1]);
    assert_eq!(batch.initialized_logits(), &[2]);
    assert_eq!(batch.seq_ids_at(1), &[3]);
}

#[test]
fn add_sequence_logits_all() {
    let mut batch = LlamaBatch::new(8, 1);
    assert_eq!(batch.add(LlamaToken(1), 0, &[0], false), Ok(()));
    let tokens = [LlamaToken(5), LlamaToken(6)];
    assert_eq!(batch.add_sequence(&tokens, 1, true), Ok(()));
    assert_eq!(batch.n_tokens(), 3);
    assert_eq!(&batch.token_ids()[..3], &[1, 5, 6]);
    // positions restart at 0 for the sequence
    assert_eq!(&batch.positions()[..3], &[0, 0, 1]);
    assert_eq!(&batch.logits_flags()[..3], &[0, 1, 1]);
    assert_eq!(batch.initialized_logits(), &[1, 2]);
}

#[test]
fn add_sequence_without_room_changes_nothing() {
    let mut batch = LlamaBatch::new(2, 1);
    assert_eq!(batch.add(LlamaToken(1), 0, &[0], true), Ok(()));
    let tokens = [LlamaToken(5), LlamaToken(6)];
    assert_eq!(
        batch.add_sequence(&tokens, 0, false),
        Err(BatchAddError::InsufficientSpace(2))
    );
    assert_eq!(batch.n_tokens(), 1);
    assert_eq!(batch.initialized_logits(), &[0]);
}

#[test]
fn add_sequence_empty_is_ok() {
    let mut batch = LlamaBatch::new(2, 1);
    assert_eq!(batch.add_sequence(&[], 0, false), Ok(()));
    assert_eq!(batch.n_tokens(), 0);
}

#[test]
fn clear_resets_tokens_keeps_room() {
    let mut batch = LlamaBatch::new(2, 1);
    let tokens = [LlamaToken(5), LlamaToken(6)];
    assert_eq!(batch.add_sequence(&tokens, 0, true), Ok(()));
    batch.clear();
    assert_eq!(batch.n_tokens(), 0);
    assert!(batch.initialized_logits().is_empty());
    assert_eq!(batch.allocated(), 2);
    assert_eq!(batch.add_sequence(&tokens, 0, false), Ok(()));
    assert_eq!(batch.initialized_logits(), &[1]);
}

#[test]
fn add_false_removes_stale_initialized_logit() {
    let mut batch = LlamaBatch::new(4, 1);
    batch.set_logits_at(0, true);
    assert_eq!(batch.initialized_logits(), &[0]);
    assert_eq!(batch.add(LlamaToken(9), 0, &[0], false), Ok(()));
    assert!(batch.initialized_logits().is_empty());
    assert_eq!(batch.logits_flags()[0], 0);
}

#[test]
fn get_one_empty_is_error() {
    assert!(matches!(LlamaBatch::get_one(&[]), Err(BatchAddError::EmptyBuffer)));
}

#[test]
fn get_one_holds_tokens() {
    let tokens = [LlamaToken(1), LlamaToken(2), LlamaToken(3)];
    let batch = LlamaBatch::get_one(&tokens).expect("non-empty");
    assert_eq!(batch.n_tokens(), 3);
    assert_eq!(batch.allocated(), 0);
    assert_eq!(batch.token_ids(), &[1, 2, 3]);
    assert_eq!(batch.initialized_logits(), &[2]);
    assert!(batch.embd_bits().is_none());
}

#[test]
fn get_one_batch_has_no_room() {
    let tokens = [LlamaToken(1)];
    let mut batch = LlamaBatch::get_one(&tokens).expect("non-empty");
    assert_eq!(
        batch.add(LlamaToken(2), 1, &[0], true),
        Err(BatchAddError::InsufficientSpace(0))
    );
    batch.set_logits_at(0, true);
    assert_eq!(batch.initialized_logits(), &[0]);
    assert_eq!(
        batch.set_embd(&[], 1, &[], None, &[0]),
        Err(BatchAddError::EmptyBuffer)
    );
}

fn bits(values: &[f32]) -> Vec<u32> {
    values.iter().map(|v| v.to_bits()).collect()
}

#[test]
fn set_embd_shared_seq_id() {
    let mut batch = LlamaBatch::new_with_embd(4, 2, 1);
    let embd = bits(&[0.5, 1.5, 2.5, 3.5, 4.5, 5.5]);
    assert_eq!(batch.set_embd(&embd, 2, &[10, 11, 12], None, &[7]), Ok(()));
    assert_eq!(batch.n_tokens(), 3);
    let stored = batch.embd_bits().expect("embedding batch");
    assert_eq!(&stored[..6], embd.as_slice());
    assert_eq!(f32::from_bits(stored[5]), 5.5);
    assert_eq!(&batch.positions()[..3], &[10, 11, 12]);
    assert_eq!(&batch.n_seq_ids()[..3], &[1, 1, 1]);
    assert_eq!(batch.seq_ids_at(0), &[7]);
    assert_eq!(batch.seq_ids_at(2), &[7]);
    assert_eq!(&batch.logits_flags()[..3], &[0, 0, 1]);
    assert_eq!(batch.initialized_logits(), &[2]);
}

#[test]
fn set_embd_per_token_seq_ids() {
    let mut batch = LlamaBatch::new_with_embd(2, 1, 1);
    let embd = bits(&[1.0, 2.0]);
    assert_eq!(batch.set_embd(&embd, 1, &[0, 1], None, &[4, 5]), Ok(()));
    assert_eq!(batch.seq_ids_at(0), &[4]);
    assert_eq!(batch.seq_ids_at(1), &[5]);
}

#[test]
fn set_embd_with_stride() {
    let mut batch = LlamaBatch::new_with_embd(4, 1, 1);
    let embd = bits(&[1.0, 2.0]);
    // 8 positions with a stride of 4 make 2 tokens
    let positions = [0, 1, 0, 0, 1, 1, 0, 0];
    let r = batch.set_embd(&embd, 1, &positions[..4], Some(2), &[0]);
    assert_eq!(r, Ok(()));
    assert_eq!(batch.n_tokens(), 2);
    assert_eq!(batch.positions(), &[0, 1, 0, 0]);
    assert_eq!(batch.initialized_logits(), &[1]);
}

#[test]
fn set_embd_too_many_tokens() {
    let mut batch = LlamaBatch::new_with_embd(1, 1, 1);
    let embd = bits(&[1.0, 2.0]);
    assert_eq!(
        batch.set_embd(&embd, 1, &[0, 1], None, &[0]),
        Err(BatchAddError::InsufficientSpace(1))
    );
    assert_eq!(batch.n_tokens(), 0);
}

#[test]
fn set_embd_bad_seq_id_count() {
    let mut batch = LlamaBatch::new_with_embd(4, 1, 1);
    let embd = bits(&[1.0, 2.0, 3.0]);
    assert_eq!(
        batch.set_embd(&embd, 1, &[0, 1, 2], None, &[0, 1]),
        Err(BatchAddError::InsufficientSpace(4))
    );
}

#[test]
fn set_embd_on_token_batch_is_empty_buffer() {
    let mut batch = LlamaBatch::new(4, 1);
    let embd = bits(&[1.0]);
    assert_eq!(
        batch.set_embd(&embd, 1, &[0], None, &[0]),
        Err(BatchAddError::EmptyBuffer)
    );
}

#[test]
fn set_logits_at_adds_and_removes() {
    let mut batch = LlamaBatch::new_with_embd(4, 1, 1);
    let embd = bits(&[1.0, 2.0, 3.0, 4.0]);
    assert_eq!(batch.set_embd(&embd, 1, &[0, 1, 2, 3], None, &[0, 0, 1, 1]), Ok(()));
    batch.set_logits_at(1, true);
    assert_eq!(batch.initialized_logits(), &[3, 1]);
    batch.set_logits_at(1, true);
    assert_eq!(batch.initialized_logits(), &[3, 1]);
    assert_eq!(batch.logits_flags(), &[0, 1, 0, 1]);
    batch.set_logits_at(3, false);
    assert_eq!(batch.initialized_logits(), &[1]);
    assert_eq!(batch.logits_flags(), &[0, 1, 0, 0]);
    // beyond the batch's room: ignored
    batch.set_logits_at(4, true);
    assert_eq!(batch.initialized_logits(), &[1]);
}

#[test]
fn set_embd_replaces_rather_than_appends() {
    let embd = bits(&[1.0, 2.0]);
    let mut fresh = LlamaBatch::new_with_embd(4, 1, 1);
    let mut used = LlamaBatch::new_with_embd(4, 1, 1);
    assert_eq!(used.set_embd(&bits(&[9.0, 8.0, 7.0]), 1, &[5, 6, 7], None, &[3]), Ok(()));
    used.set_logits_at(3, true);
    assert_eq!(fresh.set_embd(&embd, 1, &[0, 1], None, &[0]), Ok(()));
    assert_eq!(used.set_embd(&embd, 1, &[0, 1], None, &[0]), Ok(()));
    assert_eq!(fresh.n_tokens(), used.n_tokens());
    assert_eq!(fresh.initialized_logits(), used.initialized_logits());
    let before: Vec<i8> = used.logits_flags().to_vec();
    assert_eq!(used.set_embd(&embd, 1, &[0, 1], None, &[0]), Ok(()));
    assert_eq!(used.n_tokens(), 2);
    assert_eq!(used.initialized_logits(), &[1]);
    assert_eq!(used.logits_flags(), before.as_slice());
}

#[test]
fn add_sequence_matches_repeated_add() {
    let tokens = [LlamaToken(4), LlamaToken(5), LlamaToken(6)];
    let mut b1 = LlamaBatch::new(5, 1);
    let mut b2 = LlamaBatch::new(5, 1);
    assert_eq!(b1.add(LlamaToken(1), 0, &[2], true), Ok(()));
    assert_eq!(b2.add(LlamaToken(1), 0, &[2], true), Ok(()));
    assert_eq!(b1.add_sequence(&tokens, 7, false), Ok(()));
    for (i, t) in tokens.iter().enumerate() {
        let last = i + 1 == tokens.len();
        assert_eq!(b2.add(*t, i as i32, &[7], last), Ok(()));
    }
    assert_eq!(b1.n_tokens(), b2.n_tokens());
    assert_eq!(b1.token_ids(), b2.token_ids());
    assert_eq!(b1.positions(), b2.positions());
    assert_eq!(b1.n_seq_ids(), b2.n_seq_ids());
    assert_eq!(b1.logits_flags(), b2.logits_flags());
    assert_eq!(b1.initialized_logits(), b2.initialized_logits());
    for i in 0..5 {
        assert_eq!(b1.seq_ids_at(i), b2.seq_ids_at(i));
    }
}

#[test]
fn tokens_stay_within_room() {
    let mut batch = LlamaBatch::new(3, 1);
    let tokens = [LlamaToken(1), LlamaToken(2), LlamaToken(3), LlamaToken(4)];
    assert!(batch.add_sequence(&tokens, 0, false).is_err());
    assert_eq!(batch.add_sequence(&tokens[..3], 0, false), Ok(()));
    assert!(batch.add(LlamaToken(9), 3, &[0], true).is_err());
    assert!(batch.n_tokens() as usize <= batch.allocated());
}

#[test]
fn set_embd_succeeds_predicts_the_answer() {
    let batch = LlamaBatch::new_with_embd(2, 1, 1);
    assert!(batch.set_embd_succeeds(2, 1, 2, None, 1));
    assert!(!batch.set_embd_succeeds(3, 1, 3, None, 1));
    assert!(!batch.set_embd_succeeds(2, 1, 2, None, 3));
    assert!(batch.set_embd_succeeds(9, 1, 4, Some(2), 2));
    let tokens = LlamaBatch::new(2, 1);
    assert!(!tokens.set_embd_succeeds(1, 1, 1, None, 1));
}
