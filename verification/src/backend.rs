//! Bookkeeping for an object-file emission backend.
//!
//! Emission itself — laying machine code into an object container and
//! resolving relocations — is a downstream collaborator, out of this
//! core's scope. What is verified here is the decision logic the
//! backend needs: how a module-level linkage maps to an object-file
//! declaration, and when a relocation addend fits the narrow field an
//! object format stores it in.

use vstd::prelude::*;

verus! {

/// The token held for a function that has been emitted into the object
/// artifact; the artifact itself owns the bytes.
pub struct FaerieCompiledFunction {}

/// The token held for a data object that has been emitted into the
/// object artifact.
pub struct FaerieCompiledData {}

/// How a name is linked across modules.
#[derive(Clone, Copy, PartialEq, Eq, Structural, Debug)]
pub enum Linkage {
    /// Defined elsewhere; only referenced here.
    Import,
    /// Defined here, invisible outside the object.
    Local,
    /// Defined here and visible outside the object.
    Export,
}

/// An object-file declaration: what the container records for a name.
#[derive(Clone, Copy, PartialEq, Eq, Structural, Debug)]
pub enum Decl {
    FunctionImport,
    FunctionDef { global: bool },
    DataImport,
    DataDef { global: bool, writable: bool },
}

/// Map a function's linkage to its object-file declaration: an import
/// stays an import, a local definition is non-global, an exported one
/// is global.
pub fn translate_function_linkage(linkage: Linkage) -> (r: Decl)
    ensures
        linkage is Import ==> r == Decl::FunctionImport,
        linkage is Local ==> r == (Decl::FunctionDef { global: false }),
        linkage is Export ==> r == (Decl::FunctionDef { global: true }),
{
    match linkage {
        Linkage::Import => Decl::FunctionImport,
        Linkage::Local => Decl::FunctionDef { global: false },
        Linkage::Export => Decl::FunctionDef { global: true },
    }
}

/// Map a data object's linkage and writability to its object-file
/// declaration: an import stays an import; a definition records both
/// visibility and writability.
pub fn translate_data_linkage(linkage: Linkage, writable: bool) -> (r: Decl)
    ensures
        linkage is Import ==> r == Decl::DataImport,
        linkage is Local ==> r == (Decl::DataDef { global: false, writable }),
        linkage is Export ==> r == (Decl::DataDef { global: true, writable }),
{
    match linkage {
        Linkage::Import => Decl::DataImport,
        Linkage::Local => Decl::DataDef { global: false, writable },
        Linkage::Export => Decl::DataDef { global: true, writable },
    }
}

/// Narrow a relocation addend to the 32-bit field object formats store
/// it in: the addend is returned exactly when it round-trips, and
/// rejected otherwise, if and only if it lies outside the field's
/// range.
pub fn narrow_addend(addend: i64) -> (r: Option<i32>)
    ensures
        r matches Some(a) ==> a as int == addend as int,
        r is None <==> !(i32::MIN <= addend <= i32::MAX),
{
    if addend >= i32::MIN as i64 && addend <= i32::MAX as i64 {
        Some(addend as i32)
    } else {
        None
    }
}

} // verus!
