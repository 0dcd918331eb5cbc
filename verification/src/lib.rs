//! Sparse shogi inputs for an efficiently updatable evaluation network, and the
//! batch preparation that feeds them to a trainer.
use vstd::prelude::*;

pub mod batch;
pub mod batches;
pub mod checksum;
pub mod corrupt_entries;
pub mod effect_laws;
pub mod feature_laws;
pub mod input_laws;
pub mod inputs;
pub mod loader;
pub mod movement;
pub mod movement_laws;
pub mod parallel;
pub mod prepare;
pub mod prepare_laws;
pub mod prepared_data;
pub mod record_laws;
pub mod rows;
pub mod score_table;
pub mod shogi;
pub mod shogi_halfka2_threat;
pub mod shogi_halfka2_threat_dropfact;
pub mod shogi_halfka2_threat_effect;
pub mod sparse_rows;
pub mod threat_class;
pub mod threat_index;
pub mod threat_laws;
pub mod threat_tables;
pub mod wrm_params;

verus! {

} // verus!
