//! The decisions of a small firewall appliance, kept apart from its input and
//! output and proved against their contracts.

pub mod apply;
pub mod bootstrap;
pub mod bootstrap_values;
pub mod commands;
pub mod console;
pub mod desired;
pub mod documents;
pub mod exposure;
pub mod footprint;
pub mod http;
pub mod identity;
pub mod ip;
pub mod journal;
pub mod json;
pub mod lan;
pub mod links;
pub mod nft;
pub mod opt;
pub mod policy;
pub mod recovery;
pub mod reports;
pub mod startup;
pub mod steps;
pub mod text;
pub mod tls;
pub mod update;
pub mod web;
