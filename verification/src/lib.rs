pub mod clock;
pub mod command;
pub mod digest;
pub mod handler;
pub mod history;
pub mod invariants;
pub mod keyboard;
pub mod laws;
pub mod lexer;
pub mod markdown;
pub mod model;
pub mod models;
pub mod probe;
pub mod replies;
pub mod roundtrip;
pub mod router;
pub mod session;
pub mod startup;
pub mod subscriber;
pub mod text;
pub mod tweet;
