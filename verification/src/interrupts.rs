//! The interrupt lines of the machine and what is bound to them.
use vstd::prelude::*;

verus! {

/// The number of interrupt lines.
pub const LINES: usize = 256;

/// What the machine hands to the handler of a line: a number that stands for
/// the record the handler works on.
pub type Cookie = usize;

/// The proof of a binding to a line. The default handle is bound to nothing.
pub struct IRQHandle {
    line: Option<usize>,
}

/// The line is out of range or already bound.
#[derive(Debug)]
pub struct BindError;

/// The lines, each free or bound with a cookie.
pub struct InterruptTable {
    lines: Vec<Option<Cookie>>,
}

impl IRQHandle {
    /// The line that the handle is bound to, if any.
    pub closed spec fn line(&self) -> Option<usize> {
        self.line
    }

    /// A handle that is bound to nothing.
    pub fn unbound() -> (handle: IRQHandle)
        ensures
            handle.line() is None,
    {
        IRQHandle { line: None }
    }
}

impl Default for IRQHandle {
    fn default() -> (handle: IRQHandle)
        ensures
            handle.line() is None,
    {
        IRQHandle { line: None }
    }
}

impl InterruptTable {
    /// What each line is bound with.
    pub closed spec fn view(&self) -> Seq<Option<Cookie>> {
        self.lines@
    }

    /// The table has all its lines.
    pub open spec fn wf(&self) -> bool {
        self@.len() == LINES
    }

    /// A table with every line free.
    pub fn new() -> (table: InterruptTable)
        ensures
            table.wf(),
            forall|gsi: int| 0 <= gsi < LINES ==> table@[gsi] is None,
    {
        let mut lines: Vec<Option<Cookie>> = Vec::new();
        let mut i: usize = 0;
        while i < LINES
            invariant
                i <= LINES,
                lines@.len() == i,
                forall|gsi: int| 0 <= gsi < i ==> lines@[gsi] is None,
            decreases LINES - i,
        {
            lines.push(None);
            i = i + 1;
        }
        InterruptTable { lines }
    }

    /// The cookie that line `gsi` is bound with: what the machine hands to
    /// the handler when the line fires.
    pub fn cookie(&self, gsi: usize) -> (cookie: Option<Cookie>)
        requires
            self.wf(),
        ensures
            cookie == if gsi < LINES {
                self@[gsi as int]
            } else {
                None
            },
    {
        if gsi < LINES {
            self.lines[gsi]
        } else {
            None
        }
    }
}

/// Binds line `gsi` with the cookie `info`. Succeeds if the line exists and
/// is free; a failure changes nothing.
pub fn bind_gsi(table: &mut InterruptTable, gsi: usize, info: Cookie) -> (bound: Result<
    IRQHandle,
    BindError,
>)
    requires
        old(table).wf(),
    ensures
        final(table).wf(),
        bound is Ok <==> gsi < LINES && old(table)@[gsi as int] is None,
        bound matches Ok(handle) ==> handle.line() == Some(gsi) && final(table)@ == old(
            table,
        )@.update(gsi as int, Some(info)),
        bound is Err ==> final(table)@ == old(table)@,
{
    if gsi < LINES && table.lines[gsi].is_none() {
        table.lines.set(gsi, Some(info));
        Ok(IRQHandle { line: Some(gsi) })
    } else {
        Err(BindError)
    }
}

} // verus!
