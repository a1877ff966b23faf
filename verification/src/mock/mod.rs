pub mod redis;
