//! The log viewer's page: whether there is one for an app.

use vstd::prelude::*;

use crate::i18n::I18n;
use crate::registry::RegisteredApp;

verus! {

/// What a request for an app's log viewer gets.
#[derive(Debug)]
pub enum LogPage {
    /// No such app: a 404 that says so.
    Missing(String),
    /// A monitor-only app: nothing to show here, its dashboard page is the useful view.
    Redirect(String),
    Show,
}

/// What a request for the log viewer of `slug` gets.
pub fn show_app(slug: &str, app: Option<&RegisteredApp>, i18n: &I18n) -> (r: LogPage)
    ensures
        match app {
            None => r matches LogPage::Missing(text) && text@ == i18n.message(
                "api.not_registered"@,
                seq![("slug"@, slug@)],
            ),
            Some(app) => if app.logs_url is None {
                r matches LogPage::Redirect(location) && location@ == "/#"@ + slug@
            } else {
                r is Show
            },
        },
{
    match app {
        None => LogPage::Missing(i18n.line1("api.not_registered", "slug", slug)),
        Some(app) => if app.logs_url.is_none() {
            let mut location = "/#".to_owned();
            location.append(slug);
            LogPage::Redirect(location)
        } else {
            LogPage::Show
        },
    }
}

} // verus!
