//! The change-record model: what a captured change is, independent of
//! where it came from and where it goes.

pub mod col_value;
pub mod ddl_data;
pub mod dt_data;
pub mod mongo;
pub mod position;
pub mod position_codec;
pub mod rdb_meta_manager;
pub mod rdb_tb_meta;
pub mod redis;
pub mod row_data;
pub mod row_type;
pub mod struct_meta;
pub mod syncer;
