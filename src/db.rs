//! Records of the relational store, and the selections and updates that the
//! request handlers run over them.
pub mod avatars;
pub mod comments;
pub mod configs;
pub mod moderators;
pub mod pages;
pub mod sites;
pub mod users;
