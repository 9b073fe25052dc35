pub mod circuit_breaker;
