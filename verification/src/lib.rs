//! A broker that launches pre-approved command templates under a configured
//! identity, and the one-shot runner that goes with it.
//!
//! The library holds every decision of the broker and of its client, each
//! stated over a mathematical model and proved: the template files and their
//! grammar, the variables and their substitution, the resolution of a
//! template into an invocation, the authorization challenge, the
//! conversation with a client, and the framing of a child's output. Reading,
//! writing and spawning are left to the program around it, which reports
//! what came of them.

pub mod auth;
pub mod client;
pub mod conf;
pub mod conf_file;
pub mod config;
pub mod fitness;
pub mod frame;
pub mod grammar;
pub mod inherited;
pub mod model;
pub mod number;
pub mod order;
pub mod pump;
pub mod reload;
pub mod reply;
pub mod resolution;
pub mod resolve;
pub mod roundtrip;
pub mod run;
pub mod runner;
pub mod script;
pub mod server;
pub mod session;
pub mod subst;
pub mod subst_laws;
pub mod template;
pub mod text;
pub mod written;
