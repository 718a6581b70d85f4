pub mod message_handler;
pub mod task_handler;
