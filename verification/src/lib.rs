//! libabbs: utilities for AOSC OS packaging scripts maintenance, with the
//! ACBS Package Metadata Language (APML) lossless syntax tree, parser,
//! abstract syntax tree, evaluator and the PackFixerUpper lint logic.

use vstd::prelude::*;

pub mod apml;
pub mod archgroup;
pub mod chars;
pub mod checks;
pub mod lint;
pub mod matcher;
pub mod num;
pub mod python;
pub mod selector;
pub mod style;
pub mod tree;
pub mod tree_order;

use crate::chars::str_eq;

verus! {

/// An ISA supported by AOSC OS.
#[derive(PartialEq, Eq, Clone, Copy, Debug, Hash, Structural)]
pub enum Architecture {
    NoArch,
    Amd64,
    Arm64,
    LoongArch64,
    Riscv,
    Loongson3,
    Ppc64el,
}

/// The identifier of an architecture.
pub open spec fn arch_ident(arch: Architecture) -> Seq<char> {
    match arch {
        Architecture::NoArch => "noarch"@,
        Architecture::Amd64 => "amd64"@,
        Architecture::Arm64 => "arm64"@,
        Architecture::LoongArch64 => "loongarch64"@,
        Architecture::Riscv => "riscv"@,
        Architecture::Loongson3 => "loongson3"@,
        Architecture::Ppc64el => "ppc64el"@,
    }
}

/// The architecture that an identifier names, if any.
pub open spec fn arch_of_ident(ident: Seq<char>) -> Option<Architecture> {
    if ident == "noarch"@ {
        Some(Architecture::NoArch)
    } else if ident == "amd64"@ {
        Some(Architecture::Amd64)
    } else if ident == "arm64"@ {
        Some(Architecture::Arm64)
    } else if ident == "loongarch64"@ {
        Some(Architecture::LoongArch64)
    } else if ident == "riscv"@ {
        Some(Architecture::Riscv)
    } else if ident == "loongson3"@ {
        Some(Architecture::Loongson3)
    } else if ident == "ppc64el"@ {
        Some(Architecture::Ppc64el)
    } else {
        None
    }
}

/// Recognizing an identifier undoes [`Architecture::ident`], and exactly the
/// identifiers of architectures are recognized.
pub proof fn lemma_arch_ident_roundtrip(arch: Architecture, ident: Seq<char>)
    ensures
        arch_of_ident(arch_ident(arch)) == Some(arch),
        arch_of_ident(ident) == Some(arch) <==> ident == arch_ident(arch),
{
    reveal_strlit("noarch");
    reveal_strlit("amd64");
    reveal_strlit("arm64");
    reveal_strlit("loongarch64");
    reveal_strlit("riscv");
    reveal_strlit("loongson3");
    reveal_strlit("ppc64el");
    assert("noarch"@.len() == 6 && "amd64"@.len() == 5 && "arm64"@.len() == 5);
    assert("loongarch64"@.len() == 11 && "riscv"@.len() == 5 && "loongson3"@.len() == 9);
    assert("ppc64el"@.len() == 7);
    assert("amd64"@[1] == 'm' && "arm64"@[1] == 'r' && "riscv"@[1] == 'i');
}

impl Architecture {
    /// Returns the identifier for the architecture.
    pub fn ident(&self) -> (res: &'static str)
        ensures
            res@ == arch_ident(*self),
    {
        match self {
            Architecture::NoArch => "noarch",
            Architecture::Amd64 => "amd64",
            Architecture::Arm64 => "arm64",
            Architecture::LoongArch64 => "loongarch64",
            Architecture::Riscv => "riscv",
            Architecture::Loongson3 => "loongson3",
            Architecture::Ppc64el => "ppc64el",
        }
    }

    /// Recognizes an architecture identifier.
    pub fn from_ident(ident: &str) -> (res: Option<Architecture>)
        ensures
            res == arch_of_ident(ident@),
    {
        if str_eq(ident, "noarch") {
            Some(Architecture::NoArch)
        } else if str_eq(ident, "amd64") {
            Some(Architecture::Amd64)
        } else if str_eq(ident, "arm64") {
            Some(Architecture::Arm64)
        } else if str_eq(ident, "loongarch64") {
            Some(Architecture::LoongArch64)
        } else if str_eq(ident, "riscv") {
            Some(Architecture::Riscv)
        } else if str_eq(ident, "loongson3") {
            Some(Architecture::Loongson3)
        } else if str_eq(ident, "ppc64el") {
            Some(Architecture::Ppc64el)
        } else {
            None
        }
    }

    /// Returns if the architecture is [`noarch`][Architecture::NoArch].
    pub fn is_noarch(&self) -> (res: bool)
        ensures
            res == (*self is NoArch),
    {
        match self {
            Architecture::NoArch => true,
            _ => false,
        }
    }
}

} // verus!
