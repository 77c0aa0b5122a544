// Host settings: services and identity.

pub mod locale;
pub mod services;
