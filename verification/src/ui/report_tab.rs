//! The report as a text that can be handed on: to the provider's support or to
//! a friend who knows networks.

use vstd::prelude::*;
use vstd::string::StringExecFns;
use crate::model::opt_text;

verus! {

/// The name of the file that a report is saved to.
pub const FILE_NAME: &'static str = "netchecker-отчёт.txt";

/// What became of the last attempt to hand the report on.
#[derive(Debug)]
pub struct SaveState {
    pub message: Option<String>,
    pub failed: bool,
}

#[verifier::ext_equal]
pub struct SaveView {
    pub message: Option<Seq<char>>,
    pub failed: bool,
}

impl View for SaveState {
    type V = SaveView;

    open spec fn view(&self) -> SaveView {
        SaveView { message: opt_text(self.message), failed: self.failed }
    }
}

impl Default for SaveState {
    fn default() -> (r: Self)
        ensures
            r@ == (SaveView { message: None, failed: false }),
    {
        SaveState { message: None, failed: false }
    }
}

impl SaveState {
    /// The report was put into the clipboard.
    pub fn copied(&mut self)
        ensures
            final(self)@ == (SaveView {
                message: Some("Отчёт скопирован в буфер обмена."@),
                failed: false,
            }),
    {
        self.message = Some("Отчёт скопирован в буфер обмена.".to_owned());
        self.failed = false;
    }

    /// The report was saved to a file, or was not.
    pub fn saved(&mut self, outcome: &Result<String, String>)
        ensures
            final(self)@ == (match *outcome {
                Ok(path) => SaveView { message: Some("Сохранено: "@ + path@), failed: false },
                Err(e) => SaveView {
                    message: Some("Не удалось сохранить: "@ + e@),
                    failed: true,
                },
            }),
    {
        match outcome {
            Ok(path) => {
                self.message = Some(String::from_str("Сохранено: ").concat(path.as_str()));
                self.failed = false;
            },
            Err(e) => {
                self.message = Some(String::from_str("Не удалось сохранить: ").concat(e.as_str()));
                self.failed = true;
            },
        }
    }
}

/// Where the report is put: the first of the user's folders that exists, and
/// otherwise the home folder.
pub fn pick_folder(
    documents: Option<String>,
    downloads: Option<String>,
    desktop: Option<String>,
    home: String,
) -> (r: String)
    ensures
        r@ == (match (documents, downloads, desktop) {
            (Some(d), _, _) => d@,
            (None, Some(d), _) => d@,
            (None, None, Some(d)) => d@,
            (None, None, None) => home@,
        }),
{
    match documents {
        Some(d) => d,
        None => match downloads {
            Some(d) => d,
            None => match desktop {
                Some(d) => d,
                None => home,
            },
        },
    }
}

} // verus!
