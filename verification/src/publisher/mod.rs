pub mod gitlab;
