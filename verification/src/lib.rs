//! Task orchestration: task files, their dependency waves, sub-agent runs and the dashboard.

pub mod attempt;
pub mod candidates;
pub mod command;
pub mod cycle;
pub mod dag;
pub mod dashboard;
pub mod error;
pub mod events;
pub mod execution;
pub mod frontmatter;
pub mod graph;
pub mod interagent;
pub mod keys;
pub mod logs;
pub mod multi_agent_dashboard;
pub mod options;
pub mod order;
pub mod output;
pub mod paths;
pub mod patterns;
pub mod planner;
pub mod planner_panel;
pub mod raw_output;
pub mod render;
pub mod routing;
pub mod runner;
pub mod schema;
pub mod screen;
pub mod signals;
pub mod slices;
pub mod spool;
pub mod strmap;
pub mod subagent;
pub mod text;
pub mod waves;

pub use dag::Dag;
pub use error::TaskError;
pub use frontmatter::extract_yaml_front_matter;
pub use runner::Runner;
pub use runner::RunnerOptions;
pub use schema::AgentSpec;
pub use schema::TaskFile;
pub use schema::TaskSpec;
