pub mod layout;
pub mod notification;
pub mod pane;
pub mod workspace;
pub mod session;
