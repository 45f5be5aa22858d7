//! What holds of the library, stated from what goes in and what comes out.
//!
//! The modules beside this one say what each function returns in terms of
//! their own specifications. The laws here relate those specifications to the
//! text of a line, the entries of a document or the outcome of another call,
//! so that they can be read without them.

pub mod conf;
pub mod daemon;
pub mod doc;
pub mod guest;
pub mod inventory;
pub mod node;
pub mod plan;
pub mod prefix;
pub mod render;
pub mod splice;
pub mod text;
