//! Host-side decisions of a transformer inference engine: how a prompt is cut into chunks, which
//! prefix-cache blocks and recurrent-state snapshots it reuses, where each row's metadata goes,
//! and what a speculative verify commits.
//!
//! Every function here takes and returns plain values. Device work, environment variables and
//! collectives are the caller's: it performs what a function decided and hands the outcome to
//! the next one.

pub mod graph_cache;
pub mod kv_rows;
pub mod layers;
pub mod sequence;
pub mod sequence_compact;
pub mod sequence_state;
pub mod state_io;

pub mod cache_insert;
pub mod decode_checkpoint;
pub mod exact_leaf;
pub mod midchunk_capture;
pub mod prefix_lookup;
pub mod prefix_match;
pub mod prefix_reserve;
pub mod prefix_reuse;
pub mod save_checkpoint;
pub mod snap_agree;
pub mod ssm_fault_in;

pub mod chunks;
pub mod embed_chunk;
pub mod finalize_last;
pub mod forward_layers;
pub mod mrope_pos;
pub mod proc_range;
pub mod prompt_logprobs;
pub mod twophase;
pub mod upload_meta;

pub mod batch;
pub mod batch_eligible;
pub mod batch_kernel;
pub mod batched_layer;
pub mod h_state_ptrs;
pub mod prefill_slice;
pub mod stage_batched;

pub mod speculative;
pub mod speculative_mtp;
pub mod verify_batched;
pub mod verify_graphs;
pub mod verify_single;
pub mod verify_ssm;
pub mod verify_switches;
pub mod verify_wy;

pub mod phases;
pub mod rank_agree;
pub mod teardown;

pub mod align;
pub mod decimal;
