//! A marketplace of sponsored projects: a primary store of project records,
//! a worker index that mirrors the assigned ones, and the lifecycle engine
//! that moves a project from creation to settlement while keeping both
//! consistent.

pub mod consistency;
pub mod error;
pub mod guard;
pub mod laws;
pub mod model;
pub mod storage;
pub mod structs;
pub mod text;
