pub mod assembler;
pub mod document;
pub mod planner;
pub mod crawl;
pub mod conversation;
pub mod session;
