//! A static site generator's logic: Markdown sources with YAML frontmatter
//! become article pages with breadcrumbs, dates and tags; hand-written HTML
//! fragments become special pages; every article goes into an archive page
//! and a manifest. Each function is proved against a model of what it does.
pub mod archive;
pub mod article;
pub mod external;
pub mod frontmatter;
pub mod git;
pub mod html;
pub mod order;
pub mod page;
pub mod paths;
pub mod slug;
pub mod special;
pub mod text;
