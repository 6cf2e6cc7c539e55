//! Integer logic of the box3d browser demo samples, verified: random streams,
//! mesh index construction, shape user-data encodings, render-slot
//! bookkeeping and overlay text escaping.
pub mod basin;
pub mod bvh_levels;
pub mod cast_slots;
pub mod json_text;
pub mod kinds;
pub mod mover_data;
pub mod obj_text;
pub mod rng;
pub mod sensor_events;
pub mod vis_set;
