//! The user's configuration and the presence payload handed to Discord.

use vstd::prelude::*;
use vstd::hash_map::StringHashMap;

verus! {

/// The text of an optional string.
pub open spec fn opt_view(o: Option<String>) -> Option<Seq<char>> {
    match o {
        Some(s) => Some(s@),
        None => None,
    }
}

/// The fields of a Discord rich presence; a field that is `None` is not shown.
#[derive(Clone, Debug)]
pub struct RpcRule {
    pub state: Option<String>,
    pub details: Option<String>,
    pub large_image: Option<String>,
    pub large_text: Option<String>,
    pub small_image: Option<String>,
    pub small_text: Option<String>,
}

/// The configuration read from `config.json`.
pub struct Config {
    /// The Discord application id.
    pub app_id: String,
    /// Fallback Discord asset key used for the large image when a class has no
    /// entry in `image_map`.
    pub default_large_image: Option<String>,
    /// Optional Discord asset key per window class (e.g. "kitty" -> "kitty").
    /// Anything not listed falls back to `default_large_image`.
    pub image_map: StringHashMap<String>,
    /// Optional pretty display name per class (e.g. "org.mozilla.firefox" ->
    /// "Firefox"). Unknown classes are auto-prettyfied from the raw class.
    pub name_map: StringHashMap<String>,
    /// Use the live window title as the details field. Defaults to true.
    pub details_from_title: bool,
}

impl Config {
    /// A configuration for application `app_id` with the defaults of the
    /// configuration file: no default image, empty maps, details from titles.
    pub fn new(app_id: String) -> (c: Config)
        ensures
            c.app_id@ == app_id@,
            c.default_large_image is None,
            c.image_map@ == Map::<Seq<char>, String>::empty(),
            c.name_map@ == Map::<Seq<char>, String>::empty(),
            c.details_from_title,
    {
        Config {
            app_id,
            default_large_image: None,
            image_map: StringHashMap::new(),
            name_map: StringHashMap::new(),
            details_from_title: default_true(),
        }
    }

    /// Maps window class `class` to Discord asset key `key`.
    pub fn set_image(&mut self, class: String, key: String)
        ensures
            final(self).image_map@ == old(self).image_map@.insert(class@, key),
            final(self).name_map@ == old(self).name_map@,
            final(self).app_id == old(self).app_id,
            final(self).default_large_image == old(self).default_large_image,
            final(self).details_from_title == old(self).details_from_title,
    {
        self.image_map.insert(class, key);
    }

    /// Gives window class `class` the display name `name`.
    pub fn set_name(&mut self, class: String, name: String)
        ensures
            final(self).name_map@ == old(self).name_map@.insert(class@, name),
            final(self).image_map@ == old(self).image_map@,
            final(self).app_id == old(self).app_id,
            final(self).default_large_image == old(self).default_large_image,
            final(self).details_from_title == old(self).details_from_title,
    {
        self.name_map.insert(class, name);
    }
}

/// The value that `details_from_title` takes when the configuration omits it.
pub fn default_true() -> (r: bool)
    ensures
        r,
{
    true
}

} // verus!
