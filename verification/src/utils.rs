pub mod custom_map;
pub mod entity_set;
pub mod qty;
