//! A small server-side HTML template engine with inheritance, together with
//! the response and routing types around it: templates are lexed into tokens,
//! parsed into a node tree, merged with a base template through named blocks,
//! and rendered against a runtime context of values.
pub mod orm;
pub mod router;
pub mod settings;
pub mod strmap;
pub mod template;
