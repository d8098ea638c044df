//! The account page as a state machine: it shows the stored identity and
//! exports, imports and deletes it.

use vstd::prelude::*;

use crate::session::{spec_stored, Identity, SpecIdentity};
use crate::storage::{fault_message, spec_identity_of_stored, SpecStoredIdentity, StoredIdentity};
use crate::text::{is_blank, push_str, spec_is_blank};

verus! {

/// What the account page asks the outside to do.
#[derive(Clone, Debug)]
pub enum AccountAction {
    /// Read the identity from storage and answer with `identity_loaded`.
    LoadIdentity,
    /// Remove the identity from storage and answer with `identity_deleted`.
    DeleteIdentity,
    /// Write this record as JSON and answer with `exported`.
    ExportIdentity(StoredIdentity),
    /// Read a record from this JSON and answer with `import_parsed`.
    ParseIdentity(String),
    /// Write this imported record to storage and answer with `import_saved`.
    SaveImportedIdentity(StoredIdentity),
}

/// The value of an [`AccountAction`].
pub enum SpecAccountAction {
    LoadIdentity,
    DeleteIdentity,
    ExportIdentity(SpecStoredIdentity),
    ParseIdentity(Seq<char>),
    SaveImportedIdentity(SpecStoredIdentity),
}

impl View for AccountAction {
    type V = SpecAccountAction;

    open spec fn view(&self) -> SpecAccountAction {
        match self {
            AccountAction::LoadIdentity => SpecAccountAction::LoadIdentity,
            AccountAction::DeleteIdentity => SpecAccountAction::DeleteIdentity,
            AccountAction::ExportIdentity(s) => SpecAccountAction::ExportIdentity(s@),
            AccountAction::ParseIdentity(j) => SpecAccountAction::ParseIdentity(j@),
            AccountAction::SaveImportedIdentity(s) => SpecAccountAction::SaveImportedIdentity(s@),
        }
    }
}

/// The values of a list of actions.
pub open spec fn view_account_actions(v: Seq<AccountAction>) -> Seq<SpecAccountAction> {
    v.map_values(|a: AccountAction| a@)
}

/// What the account page holds.
pub struct AccountState {
    /// The stored identity, once read.
    pub identity: Option<Identity>,
    /// The status line.
    pub status: Option<String>,
    /// The identity written as JSON, once exported.
    pub export_data: Option<String>,
    /// The JSON being pasted.
    pub import_input: String,
    /// Whether the import form is shown.
    pub show_import: bool,
    /// An imported identity waiting to be saved.
    pub importing: Option<Identity>,
}

/// The value of an [`AccountState`].
pub struct SpecAccountState {
    pub identity: Option<SpecIdentity>,
    pub status: Option<Seq<char>>,
    pub export_data: Option<Seq<char>>,
    pub import_input: Seq<char>,
    pub show_import: bool,
    pub importing: Option<SpecIdentity>,
}

impl View for AccountState {
    type V = SpecAccountState;

    open spec fn view(&self) -> SpecAccountState {
        SpecAccountState {
            identity: match self.identity { Some(i) => Some(i@), None => None },
            status: match self.status { Some(m) => Some(m@), None => None },
            export_data: match self.export_data { Some(j) => Some(j@), None => None },
            import_input: self.import_input@,
            show_import: self.show_import,
            importing: match self.importing { Some(i) => Some(i@), None => None },
        }
    }
}

/// What storage's answer does: a stored identity is shown; where there is
/// none, or reading failed, the status says so.
pub open spec fn spec_account_identity_loaded(
    s: SpecAccountState,
    loaded: Result<Option<SpecIdentity>, Seq<char>>,
) -> SpecAccountState {
    match loaded {
        Ok(Some(id)) => SpecAccountState { identity: Some(id), ..s },
        Ok(None) => SpecAccountState {
            status: Some("No identity found. Create one in the 'Create Post' page."@),
            ..s
        },
        Err(e) => SpecAccountState { status: Some("Error loading identity: "@ + e), ..s },
    }
}

/// What the answer to a deletion does: on success the identity and any
/// export are dropped; on failure the status says so.
pub open spec fn spec_account_identity_deleted(s: SpecAccountState, result: Result<(), Seq<char>>) -> SpecAccountState {
    match result {
        Ok(_) => SpecAccountState {
            identity: None,
            status: Some("Identity deleted successfully. Refresh the page to create a new one."@),
            export_data: None,
            ..s
        },
        Err(e) => SpecAccountState { status: Some("Error deleting identity: "@ + e), ..s },
    }
}

/// What the export's answer does: the JSON is shown, or the status says why
/// there is none.
pub open spec fn spec_account_exported(s: SpecAccountState, result: Result<Seq<char>, Seq<char>>) -> SpecAccountState {
    match result {
        Ok(json) => SpecAccountState {
            export_data: Some(json),
            status: Some("Identity exported! Copy the JSON below and save it securely."@),
            ..s
        },
        Err(e) => SpecAccountState { status: Some("Error exporting identity: "@ + e), ..s },
    }
}

/// What the answer to saving an imported identity does: on success it becomes
/// the identity, and the import form is cleared and closed and any export
/// dropped; on failure the status says so.
pub open spec fn spec_account_import_saved(s: SpecAccountState, result: Result<(), Seq<char>>) -> SpecAccountState {
    match s.importing {
        None => s,
        Some(id) => match result {
            Ok(_) => SpecAccountState {
                identity: Some(id),
                status: Some("Identity imported successfully!"@),
                import_input: seq![],
                show_import: false,
                export_data: None,
                importing: None,
            },
            Err(e) => SpecAccountState {
                status: Some("Error saving imported identity: "@ + e),
                importing: None,
                ..s
            },
        },
    }
}

/// The text of a failure, or nothing.
pub open spec fn spec_outcome(result: Result<(), String>) -> Result<(), Seq<char>> {
    match result {
        Ok(_) => Ok(()),
        Err(e) => Err(e@),
    }
}

/// `prefix` followed by `detail`.
fn prefixed(prefix: &str, detail: &str) -> (r: String)
    ensures
        r@ == prefix@ + detail@,
{
    let mut m = String::new();
    push_str(&mut m, prefix);
    push_str(&mut m, detail);
    assert(m@ =~= prefix@ + detail@);
    m
}

impl AccountState {
    /// The page before anything happened.
    pub fn new() -> (r: Self)
        ensures
            r@ == (SpecAccountState {
                identity: None,
                status: None,
                export_data: None,
                import_input: seq![],
                show_import: false,
                importing: None,
            }),
    {
        AccountState {
            identity: None,
            status: None,
            export_data: None,
            import_input: String::new(),
            show_import: false,
            importing: None,
        }
    }

    /// The page opens: it loads the identity.
    pub fn mount(&self) -> (r: Vec<AccountAction>)
        ensures
            view_account_actions(r@) == seq![SpecAccountAction::LoadIdentity],
    {
        let mut r: Vec<AccountAction> = Vec::new();
        r.push(AccountAction::LoadIdentity);
        assert(view_account_actions(r@) =~= seq![SpecAccountAction::LoadIdentity]);
        r
    }

    /// Storage answered.
    pub fn identity_loaded(&mut self, loaded: Result<Option<Identity>, String>)
        ensures
            final(self)@ == spec_account_identity_loaded(
                old(self)@,
                match loaded {
                    Ok(Some(id)) => Ok(Some(id@)),
                    Ok(None) => Ok(None),
                    Err(e) => Err(e@),
                },
            ),
    {
        match loaded {
            Ok(Some(id)) => {
                self.identity = Some(id);
            },
            Ok(None) => {
                self.status = Some("No identity found. Create one in the 'Create Post' page.".to_owned());
            },
            Err(e) => {
                self.status = Some(prefixed("Error loading identity: ", e.as_str()));
            },
        }
    }

    /// The user deletes the identity.
    pub fn delete(&self) -> (r: Vec<AccountAction>)
        ensures
            view_account_actions(r@) == seq![SpecAccountAction::DeleteIdentity],
    {
        let mut r: Vec<AccountAction> = Vec::new();
        r.push(AccountAction::DeleteIdentity);
        assert(view_account_actions(r@) =~= seq![SpecAccountAction::DeleteIdentity]);
        r
    }

    /// Storage answered the deletion.
    pub fn identity_deleted(&mut self, result: Result<(), String>)
        ensures
            final(self)@ == spec_account_identity_deleted(old(self)@, spec_outcome(result)),
    {
        match result {
            Ok(()) => {
                self.identity = None;
                self.status = Some(
                    "Identity deleted successfully. Refresh the page to create a new one.".to_owned(),
                );
                self.export_data = None;
            },
            Err(e) => {
                self.status = Some(prefixed("Error deleting identity: ", e.as_str()));
            },
        }
    }

    /// The user exports the identity: its stored form is written as JSON;
    /// without an identity the status says there is none.
    pub fn export(&mut self) -> (r: Vec<AccountAction>)
        ensures
            match old(self)@.identity {
                Some(id) => final(self)@ == old(self)@ && view_account_actions(r@) == seq![
                    SpecAccountAction::ExportIdentity(spec_stored(id)),
                ],
                None => final(self)@ == (SpecAccountState {
                    status: Some("No identity to export."@),
                    ..old(self)@
                }) && view_account_actions(r@) == Seq::<SpecAccountAction>::empty(),
            },
    {
        let mut r: Vec<AccountAction> = Vec::new();
        match &self.identity {
            Some(id) => {
                r.push(AccountAction::ExportIdentity(id.stored()));
                assert(view_account_actions(r@) =~= seq![SpecAccountAction::ExportIdentity(spec_stored(id@))]);
            },
            None => {
                self.status = Some("No identity to export.".to_owned());
                assert(view_account_actions(r@) =~= Seq::<SpecAccountAction>::empty());
            },
        }
        r
    }

    /// The JSON of the export arrived, or writing it failed.
    pub fn exported(&mut self, result: Result<String, String>)
        ensures
            final(self)@ == spec_account_exported(
                old(self)@,
                match result {
                    Ok(j) => Ok(j@),
                    Err(e) => Err(e@),
                },
            ),
    {
        match result {
            Ok(json) => {
                self.export_data = Some(json);
                self.status = Some("Identity exported! Copy the JSON below and save it securely.".to_owned());
            },
            Err(e) => {
                self.status = Some(prefixed("Error exporting identity: ", e.as_str()));
            },
        }
    }

    /// The user shows or hides the import form.
    pub fn toggle_import(&mut self)
        ensures
            final(self)@ == (SpecAccountState { show_import: !old(self)@.show_import, ..old(self)@ }),
    {
        self.show_import = !self.show_import;
    }

    /// The user pasted or typed into the import form.
    pub fn set_import_input(&mut self, text: String)
        ensures
            final(self)@ == (SpecAccountState { import_input: text@, ..old(self)@ }),
    {
        self.import_input = text;
    }

    /// The user imports: blank input is refused, else the JSON is read.
    pub fn import(&mut self) -> (r: Vec<AccountAction>)
        ensures
            if spec_is_blank(old(self)@.import_input) {
                final(self)@ == (SpecAccountState { status: Some("Error: Import data is empty"@), ..old(self)@ })
                    && view_account_actions(r@) == Seq::<SpecAccountAction>::empty()
            } else {
                final(self)@ == old(self)@ && view_account_actions(r@) == seq![
                    SpecAccountAction::ParseIdentity(old(self)@.import_input),
                ]
            },
    {
        let mut r: Vec<AccountAction> = Vec::new();
        if is_blank(self.import_input.as_str()) {
            self.status = Some("Error: Import data is empty".to_owned());
            assert(view_account_actions(r@) =~= Seq::<SpecAccountAction>::empty());
        } else {
            r.push(AccountAction::ParseIdentity(self.import_input.clone()));
            assert(view_account_actions(r@) =~= seq![SpecAccountAction::ParseIdentity(self@.import_input)]);
        }
        r
    }

    /// The pasted JSON was read as a record, or reading it failed (with the
    /// failure's text). A record that holds an identity is saved; otherwise
    /// the status is `Error importing identity: ` and what is wrong.
    pub fn import_parsed(&mut self, parsed: Result<StoredIdentity, String>) -> (r: Vec<AccountAction>)
        ensures
            match parsed {
                Err(e) => final(self)@ == (SpecAccountState {
                    status: Some("Error importing identity: "@ + e@),
                    ..old(self)@
                }) && view_account_actions(r@) == Seq::<SpecAccountAction>::empty(),
                Ok(stored) => match spec_identity_of_stored(stored@) {
                    Ok(t) => {
                        let id = SpecIdentity { secret: t.0, public_key: t.1, process: t.2, logical_clock: t.3 };
                        &&& final(self)@ == (SpecAccountState { importing: Some(id), ..old(self)@ })
                        &&& view_account_actions(r@) == seq![SpecAccountAction::SaveImportedIdentity(spec_stored(id))]
                    },
                    Err(fault) => exists|m: Seq<char>|
                        fault_message(fault, m) && final(self)@ == (SpecAccountState {
                            status: Some("Error importing identity: "@ + m),
                            ..old(self)@
                        }) && view_account_actions(r@) == Seq::<SpecAccountAction>::empty(),
                },
            },
    {
        let mut r: Vec<AccountAction> = Vec::new();
        match parsed {
            Err(e) => {
                self.status = Some(prefixed("Error importing identity: ", e.as_str()));
                assert(view_account_actions(r@) =~= Seq::<SpecAccountAction>::empty());
            },
            Ok(stored) => match Identity::from_stored(&stored) {
                Ok(id) => {
                    r.push(AccountAction::SaveImportedIdentity(id.stored()));
                    assert(view_account_actions(r@) =~= seq![SpecAccountAction::SaveImportedIdentity(spec_stored(id@))]);
                    self.importing = Some(id);
                },
                Err(e) => {
                    self.status = Some(prefixed("Error importing identity: ", e.as_str()));
                    assert(view_account_actions(r@) =~= Seq::<SpecAccountAction>::empty());
                },
            },
        }
        r
    }

    /// Storage answered the saving of the imported identity.
    pub fn import_saved(&mut self, result: Result<(), String>)
        ensures
            final(self)@ == spec_account_import_saved(old(self)@, spec_outcome(result)),
    {
        let id = match self.importing.take() {
            None => {
                return;
            },
            Some(id) => id,
        };
        match result {
            Ok(()) => {
                self.identity = Some(id);
                self.status = Some("Identity imported successfully!".to_owned());
                self.import_input = String::new();
                self.show_import = false;
                self.export_data = None;
            },
            Err(e) => {
                self.status = Some(prefixed("Error saving imported identity: ", e.as_str()));
            },
        }
    }
}

} // verus!
