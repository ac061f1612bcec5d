//! Where a simple command's standard streams are connected. The parser
//! describes the wiring with plain values: a redirected file is named by
//! its path and append flag, and the two ends of an anonymous pipe are
//! named by the pipe's index within the pipeline, so that pipe `k`
//! connects stage `k`'s output to stage `k + 1`'s input. Opening files
//! and creating the real pipes happen outside, at spawn time.

use vstd::prelude::*;

verus! {

/// The read end of an anonymous pipe, named by the pipe's index.
#[derive(Debug, Clone, Copy, PartialEq, Eq, Structural)]
pub struct PipeReader {
    pub pipe: usize,
}

/// The write end of an anonymous pipe, named by the pipe's index.
#[derive(Debug, Clone, Copy, PartialEq, Eq, Structural)]
pub struct PipeWriter {
    pub pipe: usize,
}

/// A matched pair of pipe ends with the given index: what the parser
/// allocates at each `|` or `|&` boundary.
pub fn pipe(index: usize) -> (r: (PipeReader, PipeWriter))
    ensures
        r.0.pipe == index,
        r.1.pipe == index,
{
    (PipeReader { pipe: index }, PipeWriter { pipe: index })
}

/// Where a command's standard input comes from.
#[derive(Debug, Clone, PartialEq, Eq)]
pub enum InStream {
    /// Inherit the shell's own stdin.
    Std,
    /// A file opened for reading, named by its path.
    File(String),
    /// The read end of an anonymous pipe.
    PipeReader(PipeReader),
}

/// Where a command's standard output or standard error goes.
#[derive(Debug, Clone, PartialEq, Eq)]
pub enum OutStream {
    /// Inherit the shell's own stream.
    Std,
    /// A file opened with create and write, and the append bit per the
    /// redirect operator.
    File { path: String, append: bool },
    /// The write end of an anonymous pipe.
    PipeWriter(PipeWriter),
}

/// Mathematical model of an [`InStream`].
pub enum InStreamV {
    Std,
    File(Seq<char>),
    Pipe(int),
}

/// Mathematical model of an [`OutStream`].
pub enum OutStreamV {
    Std,
    File { path: Seq<char>, append: bool },
    Pipe(int),
}

impl View for InStream {
    type V = InStreamV;

    open spec fn view(&self) -> InStreamV {
        match self {
            InStream::Std => InStreamV::Std,
            InStream::File(p) => InStreamV::File(p@),
            InStream::PipeReader(r) => InStreamV::Pipe(r.pipe as int),
        }
    }
}

impl View for OutStream {
    type V = OutStreamV;

    open spec fn view(&self) -> OutStreamV {
        match self {
            OutStream::Std => OutStreamV::Std,
            OutStream::File { path, append } => OutStreamV::File {
                path: path@,
                append: *append,
            },
            OutStream::PipeWriter(w) => OutStreamV::Pipe(w.pipe as int),
        }
    }
}

} // verus!
