pub mod id_set;
pub mod primary_store;
pub mod table;
pub mod worker_index;
