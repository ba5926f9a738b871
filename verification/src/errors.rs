//! The application's errors and the message that each one shows.

use vstd::prelude::*;

verus! {

/// Everything that can go wrong in the application.  Errors that come from
/// the system (I/O, JSON, the window toolkit) carry the text that they print.
#[derive(Debug, PartialEq, Eq)]
pub enum AppErrors {
    FailedToReadHome,
    FailedToReadConfigFile(String),
    FailedToParseConfig(String),
    EnvNotFound(String),
    VarNotFound(String),
    SecretNotFound(String),
    EmitEventError(String),
    FailedToCloseApp(String),
    FailedToShowApp(String),
    FailedToHideApp(String),
    FailedToFocusOnAppView(String),
    FailedToExecuteCommand(String),
    CommandFailed(String),
    FailedToSetTrayMenu,
    FailedToRemoveTrayMenuItem(String),
    FailedToRetrieveMenuItems,
    FailedToCreateItem(String),
    FailedToInsertMenuItem(String),
    FailedToOpenUrl(String),
}

/// An error with its text as a sequence of characters.
pub ghost enum ErrorView {
    FailedToReadHome,
    FailedToReadConfigFile(Seq<char>),
    FailedToParseConfig(Seq<char>),
    EnvNotFound(Seq<char>),
    VarNotFound(Seq<char>),
    SecretNotFound(Seq<char>),
    EmitEventError(Seq<char>),
    FailedToCloseApp(Seq<char>),
    FailedToShowApp(Seq<char>),
    FailedToHideApp(Seq<char>),
    FailedToFocusOnAppView(Seq<char>),
    FailedToExecuteCommand(Seq<char>),
    CommandFailed(Seq<char>),
    FailedToSetTrayMenu,
    FailedToRemoveTrayMenuItem(Seq<char>),
    FailedToRetrieveMenuItems,
    FailedToCreateItem(Seq<char>),
    FailedToInsertMenuItem(Seq<char>),
    FailedToOpenUrl(Seq<char>),
}

impl View for AppErrors {
    type V = ErrorView;

    open spec fn view(&self) -> ErrorView {
        match self {
            AppErrors::FailedToReadHome => ErrorView::FailedToReadHome,
            AppErrors::FailedToReadConfigFile(s) => ErrorView::FailedToReadConfigFile(s@),
            AppErrors::FailedToParseConfig(s) => ErrorView::FailedToParseConfig(s@),
            AppErrors::EnvNotFound(s) => ErrorView::EnvNotFound(s@),
            AppErrors::VarNotFound(s) => ErrorView::VarNotFound(s@),
            AppErrors::SecretNotFound(s) => ErrorView::SecretNotFound(s@),
            AppErrors::EmitEventError(s) => ErrorView::EmitEventError(s@),
            AppErrors::FailedToCloseApp(s) => ErrorView::FailedToCloseApp(s@),
            AppErrors::FailedToShowApp(s) => ErrorView::FailedToShowApp(s@),
            AppErrors::FailedToHideApp(s) => ErrorView::FailedToHideApp(s@),
            AppErrors::FailedToFocusOnAppView(s) => ErrorView::FailedToFocusOnAppView(s@),
            AppErrors::FailedToExecuteCommand(s) => ErrorView::FailedToExecuteCommand(s@),
            AppErrors::CommandFailed(s) => ErrorView::CommandFailed(s@),
            AppErrors::FailedToSetTrayMenu => ErrorView::FailedToSetTrayMenu,
            AppErrors::FailedToRemoveTrayMenuItem(s) => ErrorView::FailedToRemoveTrayMenuItem(s@),
            AppErrors::FailedToRetrieveMenuItems => ErrorView::FailedToRetrieveMenuItems,
            AppErrors::FailedToCreateItem(s) => ErrorView::FailedToCreateItem(s@),
            AppErrors::FailedToInsertMenuItem(s) => ErrorView::FailedToInsertMenuItem(s@),
            AppErrors::FailedToOpenUrl(s) => ErrorView::FailedToOpenUrl(s@),
        }
    }
}

/// The message that an error shows to the user.
pub open spec fn error_message(e: ErrorView) -> Seq<char> {
    match e {
        ErrorView::FailedToReadHome => "Failed to read $HOME environment variable"@,
        ErrorView::FailedToReadConfigFile(_) => "Failed to read config file"@,
        ErrorView::FailedToParseConfig(s) => s,
        ErrorView::EnvNotFound(s) => "Env "@ + s + " not found"@,
        ErrorView::VarNotFound(s) => "Variable "@ + s + " not found"@,
        ErrorView::SecretNotFound(s) => "Secret "@ + s + " not found"@,
        ErrorView::EmitEventError(s) => s,
        ErrorView::FailedToCloseApp(s) => "Failed to close app ("@ + s + ")"@,
        ErrorView::FailedToShowApp(s) => "Failed to show app ("@ + s + ")"@,
        ErrorView::FailedToHideApp(s) => "Failed to hide app ("@ + s + ")"@,
        ErrorView::FailedToFocusOnAppView(s) => "Failed to focus on app view ("@ + s + ")"@,
        ErrorView::FailedToExecuteCommand(s) => "Failed to execute command:\n"@ + s,
        ErrorView::CommandFailed(s) => s,
        ErrorView::FailedToSetTrayMenu => "Failed to set tray menu"@,
        ErrorView::FailedToRemoveTrayMenuItem(s) => "Failed to remove tray menu item "@ + s,
        ErrorView::FailedToRetrieveMenuItems => "Failed to retrieve tray menu items"@,
        ErrorView::FailedToCreateItem(s) => "Failed to create tray menu item "@ + s,
        ErrorView::FailedToInsertMenuItem(s) => "Failed to insert tray menu item "@ + s,
        ErrorView::FailedToOpenUrl(s) => "Failed to open url "@ + s,
    }
}

fn wrap(before: &str, s: &String, after: &str) -> (r: String)
    ensures
        r@ == before@ + s@ + after@,
{
    let mut r = String::new();
    r.append(before);
    r.append(s.as_str());
    r.append(after);
    r
}

impl AppErrors {
    /// The message that this error shows to the user.
    pub fn message(&self) -> (r: String)
        ensures
            r@ == error_message(self@),
    {
        match self {
            AppErrors::FailedToReadHome => "Failed to read $HOME environment variable".to_owned(),
            AppErrors::FailedToReadConfigFile(_) => "Failed to read config file".to_owned(),
            AppErrors::FailedToParseConfig(s) => s.clone(),
            AppErrors::EnvNotFound(s) => wrap("Env ", s, " not found"),
            AppErrors::VarNotFound(s) => wrap("Variable ", s, " not found"),
            AppErrors::SecretNotFound(s) => wrap("Secret ", s, " not found"),
            AppErrors::EmitEventError(s) => s.clone(),
            AppErrors::FailedToCloseApp(s) => wrap("Failed to close app (", s, ")"),
            AppErrors::FailedToShowApp(s) => wrap("Failed to show app (", s, ")"),
            AppErrors::FailedToHideApp(s) => wrap("Failed to hide app (", s, ")"),
            AppErrors::FailedToFocusOnAppView(s) => wrap("Failed to focus on app view (", s, ")"),
            AppErrors::FailedToExecuteCommand(s) => {
                let r = wrap("Failed to execute command:\n", s, "");
                proof {
                    reveal_strlit("");
                    assert(r@ =~= "Failed to execute command:\n"@ + s@);
                }
                r
            },
            AppErrors::CommandFailed(s) => s.clone(),
            AppErrors::FailedToSetTrayMenu => "Failed to set tray menu".to_owned(),
            AppErrors::FailedToRemoveTrayMenuItem(s) => {
                let r = wrap("Failed to remove tray menu item ", s, "");
                proof {
                    reveal_strlit("");
                    assert(r@ =~= "Failed to remove tray menu item "@ + s@);
                }
                r
            },
            AppErrors::FailedToRetrieveMenuItems => "Failed to retrieve tray menu items".to_owned(),
            AppErrors::FailedToCreateItem(s) => {
                let r = wrap("Failed to create tray menu item ", s, "");
                proof {
                    reveal_strlit("");
                    assert(r@ =~= "Failed to create tray menu item "@ + s@);
                }
                r
            },
            AppErrors::FailedToInsertMenuItem(s) => {
                let r = wrap("Failed to insert tray menu item ", s, "");
                proof {
                    reveal_strlit("");
                    assert(r@ =~= "Failed to insert tray menu item "@ + s@);
                }
                r
            },
            AppErrors::FailedToOpenUrl(s) => {
                let r = wrap("Failed to open url ", s, "");
                proof {
                    reveal_strlit("");
                    assert(r@ =~= "Failed to open url "@ + s@);
                }
                r
            },
        }
    }
}

} // verus!
