//! A fixed-capacity ring buffer that overwrites its oldest element when full.

mod buffer;
mod model;
mod ring;
mod text;

pub use buffer::Buffer;
pub use model::{
    handed_back, insert_evicts, insert_result, inserted, inserts, lemma_capacity_one,
    lemma_eviction_takes_oldest, lemma_fifo, lemma_removes_on_empty, lemma_round_trip,
    lemma_run_append, lemma_run_bounded, remove_result, remove_returns, removes, run, step,
    BufferOp,
};
pub use ring::{debug_text, mask_modulo, RingBuffer, RingBufferError};
pub use text::{decimal, digit_char, push_decimal};
