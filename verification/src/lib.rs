pub mod cgroup;
pub mod config;
pub mod container;
pub mod dropzone;
pub mod environ;
pub mod fs;
pub mod gamescope;
pub mod guest;
pub mod isolation;
pub mod launch;
pub mod layout;
pub mod microvm;
pub mod path;
pub mod plan;
pub mod report;
pub mod security;
pub mod supervisor;
pub mod sys;
pub mod text;
