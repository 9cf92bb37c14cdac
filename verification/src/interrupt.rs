//! The CPU exceptions that the kernel handles, and the table that routes an
//! exception vector to its handler.

use vstd::prelude::*;
use x86_64::structures::idt::ExceptionVector;

verus! {

/// An exception that the kernel installs a handler for.
#[derive(Clone, Copy, Debug, PartialEq, Eq)]
pub enum Exception {
    Breakpoint,
    DoubleFault,
    PageFault,
    AlignmentCheck,
    GeneralProtectionFault,
}

/// The vector number through which the CPU raises `e`.
pub open spec fn vector_of(e: Exception) -> u8 {
    match e {
        Exception::Breakpoint => 0x03,
        Exception::DoubleFault => 0x08,
        Exception::PageFault => 0x0E,
        Exception::AlignmentCheck => 0x11,
        Exception::GeneralProtectionFault => 0x0D,
    }
}

/// The vector of `e` as `x86_64`'s `ExceptionVector` numbers it
/// (`ExceptionVector::Breakpoint as u8` and so on).
#[verifier::external_body]
fn exception_vector(e: Exception) -> (v: u8)
    ensures
        v == vector_of(e),
{
    let vector = match e {
        Exception::Breakpoint => ExceptionVector::Breakpoint,
        Exception::DoubleFault => ExceptionVector::Double,
        Exception::PageFault => ExceptionVector::Page,
        Exception::AlignmentCheck => ExceptionVector::AlignmentCheck,
        Exception::GeneralProtectionFault => ExceptionVector::GeneralProtection,
    };
    vector as u8
}

impl Exception {
    /// The vector number through which the CPU raises this exception.
    pub fn vector(self) -> (v: u8)
        ensures
            v == vector_of(self),
    {
        exception_vector(self)
    }
}

/// The exceptions the kernel handles, in the order their handlers are set.
pub open spec fn installed_exceptions() -> Seq<Exception> {
    seq![
        Exception::Breakpoint,
        Exception::DoubleFault,
        Exception::PageFault,
        Exception::AlignmentCheck,
        Exception::GeneralProtectionFault,
    ]
}

/// The handler entries of an interrupt descriptor table.
pub struct InterruptTable {
    entries: [Exception; 5],
}

impl View for InterruptTable {
    type V = Seq<Exception>;

    closed spec fn view(&self) -> Seq<Exception> {
        self.entries@
    }
}

/// The handler for `vector` among `entries`: the first entry raised through it.
pub open spec fn handler_in(entries: Seq<Exception>, vector: u8) -> Option<Exception>
    decreases entries.len(),
{
    if entries.len() == 0 {
        None
    } else if vector_of(entries[0]) == vector {
        Some(entries[0])
    } else {
        handler_in(entries.drop_first(), vector)
    }
}

/// The table of the kernel: handlers for breakpoints, double faults, page
/// faults, alignment checks and general protection faults.
pub fn init_interrupt_table() -> (t: InterruptTable)
    ensures
        t@ == installed_exceptions(),
{
    let entries = [
        Exception::Breakpoint,
        Exception::DoubleFault,
        Exception::PageFault,
        Exception::AlignmentCheck,
        Exception::GeneralProtectionFault,
    ];
    assert(entries@ =~= installed_exceptions());
    InterruptTable { entries }
}

impl InterruptTable {
    /// The number of handlers in the table.
    pub fn len(&self) -> (n: usize)
        ensures
            n == self@.len(),
    {
        5
    }

    /// The exception whose handler is at position `i`.
    pub fn entry(&self, i: usize) -> (e: Exception)
        requires
            i < self@.len(),
        ensures
            e == self@[i as int],
    {
        self.entries[i]
    }

    /// The handler that the CPU runs for `vector`, if the table has one.
    pub fn handler_for(&self, vector: u8) -> (r: Option<Exception>)
        ensures
            r == handler_in(self@, vector),
    {
        let mut i: usize = 0;
        assert(self.entries@.skip(0) =~= self.entries@);
        while i < 5
            invariant
                i <= self.entries@.len(),
                handler_in(self.entries@, vector) == handler_in(self.entries@.skip(i as int), vector),
            decreases self.entries@.len() - i,
        {
            let e = self.entries[i];
            proof {
                assert(self.entries@.skip(i as int).drop_first() =~= self.entries@.skip(i as int + 1));
            }
            if e.vector() == vector {
                return Some(e);
            }
            i = i + 1;
        }
        assert(self.entries@.skip(i as int) =~= Seq::<Exception>::empty());
        None
    }
}

/// Law: in the kernel's table each handled exception is found through its
/// own vector, and no other vector has a handler.
pub proof fn lemma_table_routes_vectors(vector: u8)
    ensures
        handler_in(installed_exceptions(), vector) == (if vector == 0x03 {
            Some(Exception::Breakpoint)
        } else if vector == 0x08 {
            Some(Exception::DoubleFault)
        } else if vector == 0x0E {
            Some(Exception::PageFault)
        } else if vector == 0x11 {
            Some(Exception::AlignmentCheck)
        } else if vector == 0x0D {
            Some(Exception::GeneralProtectionFault)
        } else {
            None::<Exception>
        }),
{
    let s = installed_exceptions();
    reveal_with_fuel(handler_in, 6);
    assert(s.drop_first() =~= seq![
        Exception::DoubleFault,
        Exception::PageFault,
        Exception::AlignmentCheck,
        Exception::GeneralProtectionFault,
    ]);
    assert(s.drop_first().drop_first() =~= seq![
        Exception::PageFault,
        Exception::AlignmentCheck,
        Exception::GeneralProtectionFault,
    ]);
    assert(s.drop_first().drop_first().drop_first() =~= seq![
        Exception::AlignmentCheck,
        Exception::GeneralProtectionFault,
    ]);
    assert(s.drop_first().drop_first().drop_first().drop_first() =~= seq![
        Exception::GeneralProtectionFault,
    ]);
    assert(s.drop_first().drop_first().drop_first().drop_first().drop_first() =~= Seq::<Exception>::empty());
}

} // verus!
