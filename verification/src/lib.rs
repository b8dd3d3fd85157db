pub mod text;
pub mod number;
pub mod sorted;
pub mod git_workflow;
pub mod clock;
pub mod json;
pub mod state;
pub mod ids;
pub mod markdown;
pub mod task_queue;
pub mod verification;
pub mod project_memory;
pub mod prompt_templates;
pub mod repo_map;
pub mod mascot;
pub mod tui;
pub mod screen;
pub mod ngrok;
