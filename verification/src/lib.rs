pub mod codec;
pub mod cumulative;
pub mod decimal;
pub mod error;
pub mod plot;
pub mod record;
pub mod series;
pub mod text;
