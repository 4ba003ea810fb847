//! Requests for code lenses: what to do next, given what has come back.

use crate::db::{LuaDeclId, LuaMemberId};
use crate::syntax::FileId;
use vstd::prelude::*;

verus! {

/// What a code lens is attached to.
#[derive(Clone, Copy, Debug, PartialEq, Eq, Structural)]
pub enum CodeLensData {
    Member(LuaMemberId),
    DeclId(LuaDeclId),
}

/// What has become known in the course of a request for the code lenses of a
/// document.
#[derive(Debug)]
pub enum CodeLensEvent<L> {
    /// The request has come in.
    Requested,
    /// The file of the document, if there is one.
    File(Option<FileId>),
    /// Whether there is a semantic model of the file.
    Modelled(FileId, bool),
    /// The code lenses of the file, if they could be built.
    Built(Option<Vec<L>>),
}

/// What to do next for a request for the code lenses of a document.
#[derive(Debug)]
pub enum CodeLensAction<L> {
    /// Look up the file of the document.
    FindFile,
    /// Look up the semantic model of the file.
    FindModel(FileId),
    /// Build the code lenses from the semantic model of the file.
    Build(FileId),
    /// Answer the request.
    Reply(Option<Vec<L>>),
}

/// The next action for a request for the code lenses of a document.
pub open spec fn next_action<L>(event: CodeLensEvent<L>) -> CodeLensAction<L> {
    match event {
        CodeLensEvent::Requested => CodeLensAction::FindFile,
        CodeLensEvent::File(Some(file_id)) => CodeLensAction::FindModel(file_id),
        CodeLensEvent::File(None) => CodeLensAction::Reply(None),
        CodeLensEvent::Modelled(file_id, true) => CodeLensAction::Build(file_id),
        CodeLensEvent::Modelled(_, false) => CodeLensAction::Reply(None),
        CodeLensEvent::Built(lenses) => CodeLensAction::Reply(lenses),
    }
}

/// The next action for a request for the code lenses of a document.
pub fn on_code_lens_handler<L>(event: CodeLensEvent<L>) -> (r: CodeLensAction<L>)
    ensures
        r == next_action(event),
{
    match event {
        CodeLensEvent::Requested => CodeLensAction::FindFile,
        CodeLensEvent::File(Some(file_id)) => CodeLensAction::FindModel(file_id),
        CodeLensEvent::File(None) => CodeLensAction::Reply(None),
        CodeLensEvent::Modelled(file_id, modelled) => {
            if modelled {
                CodeLensAction::Build(file_id)
            } else {
                CodeLensAction::Reply(None)
            }
        },
        CodeLensEvent::Built(lenses) => CodeLensAction::Reply(lenses),
    }
}

/// The answer to a request, given all that can come back: the file of the
/// document, whether it has a semantic model, and what was built from that.
pub open spec fn reply<L>(file: Option<FileId>, modelled: bool, lenses: Option<Vec<L>>) -> Option<
    Option<Vec<L>>,
> {
    match next_action::<L>(CodeLensEvent::Requested) {
        CodeLensAction::FindFile => match next_action::<L>(CodeLensEvent::File(file)) {
            CodeLensAction::FindModel(id) => match next_action::<L>(
                CodeLensEvent::Modelled(id, modelled),
            ) {
                CodeLensAction::Build(_) => match next_action(CodeLensEvent::Built(lenses)) {
                    CodeLensAction::Reply(answer) => Some(answer),
                    _ => None,
                },
                CodeLensAction::Reply(answer) => Some(answer),
                _ => None,
            },
            CodeLensAction::Reply(answer) => Some(answer),
            _ => None,
        },
        _ => None,
    }
}

/// Every request is answered: with what was built where the document has a
/// file and the file has a semantic model, else with nothing.
pub proof fn law_every_request_is_answered<L>(
    file: Option<FileId>,
    modelled: bool,
    lenses: Option<Vec<L>>,
)
    ensures
        reply(file, modelled, lenses) == Some(
            if file is Some && modelled {
                lenses
            } else {
                None
            },
        ),
{
}

/// The file that was found is the one whose model is looked up and from whose
/// model the code lenses are built.
pub proof fn law_file_is_passed_on<L>(file: FileId)
    ensures
        next_action::<L>(CodeLensEvent::File(Some(file))) matches CodeLensAction::FindModel(id)
            && id == file,
        next_action::<L>(CodeLensEvent::Modelled(file, true)) matches CodeLensAction::Build(id)
            && id == file,
{
}

/// The answer to a request to resolve a code lens: the resolved code lens,
/// else the code lens as it came in.
pub fn on_resolve_code_lens_handler<L>(code_lens: L, resolved: Option<L>) -> (r: L)
    ensures
        r == (match resolved {
            Some(resolved) => resolved,
            None => code_lens,
        }),
{
    match resolved {
        Some(resolved) => resolved,
        None => code_lens,
    }
}

} // verus!
