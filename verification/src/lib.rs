//! Locating PEM-armored certificates and private keys inside arbitrary
//! file content, selecting a unique object among candidates, and splicing
//! replacement PEM text into the recorded byte spans.

pub mod model;
pub mod matcher;
pub mod splice;
pub mod group;
pub mod finder;
pub mod replace;
pub mod armor;
pub mod decode;
pub mod parse;
pub mod mode;
