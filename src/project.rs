//! The settings of a site project.
use vstd::prelude::*;

verus! {

pub struct ProjectMeta {
    pub site_name: String,
    pub site_folder: String,
    pub source_folder: String,
    pub static_folder: String,
    pub output_folder: String,
    pub template: String,
}

impl Default for ProjectMeta {
    fn default() -> (r: Self)
        ensures
            r.site_name@ == "https://example.com/"@,
            r.site_folder@ == "/"@,
            r.source_folder@ == "src"@,
            r.static_folder@ == "static"@,
            r.output_folder@ == "out"@,
            r.template@ == "template.html"@,
    {
        ProjectMeta {
            site_name: String::from_str("https://example.com/"),
            site_folder: String::from_str("/"),
            source_folder: String::from_str("src"),
            static_folder: String::from_str("static"),
            output_folder: String::from_str("out"),
            template: String::from_str("template.html"),
        }
    }
}

/// The settings a new project starts from.
pub struct Project {
    pub site_name: String,
    pub site_folder: String,
    pub source_folder: String,
    pub static_folder: String,
}

impl Default for Project {
    fn default() -> (r: Self)
        ensures
            r.site_name@ == "https://example.com"@,
            r.site_folder@ == "/"@,
            r.source_folder@ == "src"@,
            r.static_folder@ == "static"@,
    {
        Project {
            site_name: String::from_str("https://example.com"),
            site_folder: String::from_str("/"),
            source_folder: String::from_str("src"),
            static_folder: String::from_str("static"),
        }
    }
}

} // verus!
