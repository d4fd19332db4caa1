use vstd::prelude::*;
use crate::ast::{Program, SStmt, stmts_view, strings_view};

verus! {

/// Work that only the program around the interpreter can do: output, files, the clock.
#[derive(Debug, PartialEq)]
pub enum HostRequest {
    /// write this text to standard output
    Print(String),
    /// read the whole file at this path
    ReadFile(String),
    /// write the text (second) to the file at the path (first)
    WriteFile(String, String),
    /// the seconds since the Unix epoch
    Time,
    /// the nanoseconds since the Unix epoch, as an `i64`
    Random,
    /// read and parse the Kingcobra file at this path
    Import(String),
}

/// What the program around the interpreter answers to a request.
#[derive(Debug, PartialEq)]
pub enum HostReply {
    /// the work was done
    Done,
    /// the text that was read
    Text(String),
    /// the work failed, for this reason
    Failure(String),
    /// the number asked for
    Number(i64),
    /// the program that an imported file holds
    Module(Program),
    /// the errors met while parsing an imported file
    ModuleErrors(Vec<String>),
}

/// The value of a request.
pub enum SRequest {
    Print(Seq<char>),
    ReadFile(Seq<char>),
    WriteFile(Seq<char>, Seq<char>),
    Time,
    Random,
    Import(Seq<char>),
}

/// The value of a reply.
pub enum SReply {
    Done,
    Text(Seq<char>),
    Failure(Seq<char>),
    Number(i64),
    Module(Seq<SStmt>),
    ModuleErrors(Seq<Seq<char>>),
}

impl View for HostRequest {
    type V = SRequest;

    open spec fn view(&self) -> SRequest {
        match self {
            HostRequest::Print(s) => SRequest::Print(s@),
            HostRequest::ReadFile(s) => SRequest::ReadFile(s@),
            HostRequest::WriteFile(p, c) => SRequest::WriteFile(p@, c@),
            HostRequest::Time => SRequest::Time,
            HostRequest::Random => SRequest::Random,
            HostRequest::Import(s) => SRequest::Import(s@),
        }
    }
}

impl View for HostReply {
    type V = SReply;

    open spec fn view(&self) -> SReply {
        match self {
            HostReply::Done => SReply::Done,
            HostReply::Text(s) => SReply::Text(s@),
            HostReply::Failure(s) => SReply::Failure(s@),
            HostReply::Number(n) => SReply::Number(*n),
            HostReply::Module(p) => SReply::Module(stmts_view(p.statements@)),
            HostReply::ModuleErrors(v) => SReply::ModuleErrors(strings_view(v@)),
        }
    }
}

/// The values of a log of replies.
pub open spec fn replies_view(v: Seq<HostReply>) -> Seq<SReply> {
    v.map_values(|r: HostReply| r@)
}

} // verus!
