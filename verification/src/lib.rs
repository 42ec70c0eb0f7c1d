//! Verified logic of a two-board climate controller: a thermal-array sensor
//! that locates a person, and a fan that follows remote commands.

pub mod fan;
pub mod http;
pub mod thermal;
pub mod wifi;
