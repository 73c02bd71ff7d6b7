//! The values the templates of a new project are filled with.
use vstd::prelude::*;
use crate::strs::str_to_string;

verus! {

/// The main activity class of a new project.
#[derive(Debug, PartialEq, Eq)]
pub struct Activity {
    pub package_name: String,
    pub class_name: String,
    pub xml_layout: Option<String>,
}

impl Activity {
    pub fn new(package_name: &str, class_name: &str, xml_layout: Option<String>) -> (r: Activity)
        ensures
            r.package_name@ == package_name@,
            r.class_name@ == class_name@,
            r.xml_layout == xml_layout,
    {
        Activity {
            package_name: str_to_string(package_name),
            class_name: str_to_string(class_name),
            xml_layout,
        }
    }
}

/// The layout of the main activity.
#[derive(Debug, PartialEq, Eq)]
pub struct ActivityXml {}

impl ActivityXml {
    pub fn new() -> (r: ActivityXml) {
        ActivityXml {  }
    }
}

/// The manifest of a new project.
#[derive(Debug, PartialEq, Eq)]
pub struct AndroidManifest {
    pub package_name: String,
    pub version_number: i32,
    pub version_name: String,
    pub main_activity: String,
}

impl AndroidManifest {
    pub fn new(package: &str, version_number: i32, version_name: &str, main_activity: &str) -> (r: AndroidManifest)
        ensures
            r.package_name@ == package@,
            r.version_number == version_number,
            r.version_name@ == version_name@,
            r.main_activity@ == main_activity@,
    {
        AndroidManifest {
            package_name: str_to_string(package),
            version_number,
            version_name: str_to_string(version_name),
            main_activity: str_to_string(main_activity),
        }
    }
}

/// The string resources of a new project.
#[derive(Debug, PartialEq, Eq)]
pub struct StringsRes {
    pub app_name: String,
    pub main_activity_title: String,
}

impl StringsRes {
    pub fn new(app_name: &str, main_activity_title: &str) -> (r: StringsRes)
        ensures
            r.app_name@ == app_name@,
            r.main_activity_title@ == main_activity_title@,
    {
        StringsRes { app_name: str_to_string(app_name), main_activity_title: str_to_string(main_activity_title) }
    }
}

} // verus!
