//! The QQ side: what the hub sends to its QQ group and what it does with
//! what the group sends.
pub mod viaws;
