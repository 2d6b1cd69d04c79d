//! The agent client protocol: what is sent to a coding agent and what is made
//! of what comes back.

pub mod connection;
pub mod project;
pub mod protocol;
pub mod stub_agent;

pub use connection::ContentBlock;
pub use connection::WritePolicyGuard;
pub use connection::build_permission_response_with_policy;
pub use connection::tool_title_denied_for_read_only;
pub use connection::WRITE_POLICY_MODIFY_ALLOWED;
pub use connection::WRITE_POLICY_READ_ONLY;
pub use project::ProjectContext;
pub use protocol::TurnResult;
