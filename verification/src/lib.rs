//! Extraction of the state that single-page web applications embed in HTML:
//! JSON script blocks (Next.js and others), values assigned in inline
//! JavaScript (`window.__NUXT__ = ...`, `var dataLayer = ...`), and the
//! devalue arrays of Nuxt and Pinia turned back into nested values.
//!
//! Modules, from the bottom up: `text` (trimming, searching, reading
//! integers), `json` (JSON values and their model), `devalue` (the devalue
//! format), `reading` (values read from JSON, JSON5 and string literals),
//! `state` (the key-value map of hydration state), `candidate` (keys with
//! their values, or number texts still to be read), `html` (documents and
//! JSON script blocks), `syntax` (JavaScript syntax trees), `js`
//! (assignments in a syntax tree), `window` (assignments in inline scripts)
//! and `hydration` (the whole extraction).

pub mod candidate;
pub mod devalue;
pub mod html;
pub mod hydration;
pub mod js;
pub mod json;
pub mod reading;
pub mod state;
pub mod syntax;
pub mod text;
pub mod window;
