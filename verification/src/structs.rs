pub mod all_projects_return;
pub mod project;
pub mod project_management;
pub mod user_project_returns;
