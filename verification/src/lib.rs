pub mod text;
pub mod usage_reporter;
pub mod usage_reporter_fire_and_forget;
pub mod history;
pub mod json;
pub mod aura_usage;
pub mod facts;
pub mod gateway;
pub mod ids;
