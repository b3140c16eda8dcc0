//! Installing the kernel's interrupt descriptor table.
use vstd::prelude::*;

use x86_64::structures::idt::{Entry, HandlerFunc, InterruptDescriptorTable};

verus! {

/// `x86_64::structures::idt::InterruptDescriptorTable`, carried as an opaque value.
#[verifier::external_type_specification]
#[verifier::external_body]
pub struct ExInterruptDescriptorTable(InterruptDescriptorTable);

/// `x86_64::structures::idt::Entry`, opaque; declared because the table's
/// indexing impls name it.
#[verifier::external_type_specification]
#[verifier::external_body]
#[verifier::reject_recursive_types(F)]
pub struct ExIdtEntry<F>(Entry<F>);

/// `x86_64::structures::idt::HandlerFunc`, opaque; declared because the
/// table's indexing impls name it.
#[verifier::external_type_specification]
#[verifier::external_body]
pub struct ExHandlerFunc(HandlerFunc);

/// `x86_64::structures::idt::InterruptDescriptorTable::load`: executes `lidt`
/// with the table; nothing about the table or the processor is stated.
#[verifier::external_body]
fn load_idt(idt: &'static InterruptDescriptorTable) {
    idt.load();
}

/// Makes `idt` the processor's interrupt descriptor table.
pub fn init_idt(idt: &'static InterruptDescriptorTable) {
    load_idt(idt);
}

} // verus!
