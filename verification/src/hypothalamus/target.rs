//! Target profiles for hosted and freestanding output.
//!
//! A profile names a target triple, a runtime ABI and a default output kind;
//! the code generator decides everything else from the triple.

use vstd::prelude::*;
use crate::bytes::str_eq;
use super::codegen::{FreestandingOptions, Runtime};
use super::driver::EmitKind;

verus! {

/// Runtime ABI used by a target profile.
#[derive(Debug, Clone)]
pub enum RuntimeAbi {
    /// Hosted C ABI with `main`, `putchar`, and `getchar`.
    Hosted,
    /// Freestanding ABI with caller-supplied byte I/O hooks.
    Freestanding(FreestandingOptions),
}

impl RuntimeAbi {
    /// Whether this ABI is freestanding.
    pub fn is_freestanding(&self) -> (r: bool)
        ensures
            r == self is Freestanding,
    {
        match self {
            RuntimeAbi::Freestanding(_) => true,
            RuntimeAbi::Hosted => false,
        }
    }

    /// The code generator's runtime for this ABI, with the same hook names.
    pub fn to_codegen_runtime(&self) -> (r: Runtime)
        ensures
            match (self, r) {
                (RuntimeAbi::Hosted, Runtime::Hosted) => true,
                (RuntimeAbi::Freestanding(a), Runtime::Freestanding(b)) => a.entry_symbol@ == b.entry_symbol@
                    && a.putchar_symbol@ == b.putchar_symbol@ && a.getchar_symbol@ == b.getchar_symbol@,
                _ => false,
            },
    {
        match self {
            RuntimeAbi::Hosted => Runtime::Hosted,
            RuntimeAbi::Freestanding(options) => Runtime::Freestanding(FreestandingOptions {
                entry_symbol: options.entry_symbol.clone(),
                putchar_symbol: options.putchar_symbol.clone(),
                getchar_symbol: options.getchar_symbol.clone(),
            }),
        }
    }
}

/// Runtime ABI kind of a built-in preset.
#[derive(Debug, Clone, Copy, PartialEq, Eq, Structural)]
pub enum RuntimeAbiKind {
    /// Hosted C ABI.
    Hosted,
    /// Freestanding byte I/O hook ABI.
    Freestanding,
}

impl RuntimeAbiKind {
    fn into_abi(self) -> (r: RuntimeAbi)
        ensures
            match self {
                RuntimeAbiKind::Hosted => r is Hosted,
                RuntimeAbiKind::Freestanding => r matches RuntimeAbi::Freestanding(o) && o.is_default(),
            },
    {
        match self {
            RuntimeAbiKind::Hosted => RuntimeAbi::Hosted,
            RuntimeAbiKind::Freestanding => RuntimeAbi::Freestanding(FreestandingOptions::default()),
        }
    }
}

/// A built-in target preset.
#[derive(Debug, Clone, Copy)]
pub struct TargetPreset {
    /// Stable target name.
    pub name: &'static str,
    /// Short human-readable description.
    pub description: &'static str,
    /// Target triple to compile for, or `None` for the host.
    pub triple: Option<&'static str>,
    /// Runtime ABI of this preset.
    pub runtime_abi: RuntimeAbiKind,
    /// Default output kind for this target.
    pub default_emit: EmitKind,
}

impl TargetPreset {
    /// This preset as an owned target profile.
    pub fn profile(self) -> (r: TargetProfile)
        ensures
            r.is_preset(self),
    {
        TargetProfile {
            name: self.name.to_owned(),
            description: self.description.to_owned(),
            triple: match self.triple {
                Some(t) => Some(t.to_owned()),
                None => None,
            },
            runtime_abi: self.runtime_abi.into_abi(),
            default_emit: self.default_emit,
        }
    }
}

/// Resolved target configuration used by the compiler driver.
#[derive(Debug, Clone)]
pub struct TargetProfile {
    name: String,
    description: String,
    triple: Option<String>,
    runtime_abi: RuntimeAbi,
    default_emit: EmitKind,
}

impl TargetProfile {
    /// The profile's name.
    pub closed spec fn name_view(&self) -> Seq<char> {
        self.name@
    }

    /// The profile's description.
    pub closed spec fn description_view(&self) -> Seq<char> {
        self.description@
    }

    /// The triple the profile forces, if any.
    pub closed spec fn triple_view(&self) -> Option<Seq<char>> {
        match self.triple {
            Some(t) => Some(t@),
            None => None,
        }
    }

    /// The profile's runtime ABI.
    pub closed spec fn abi_view(&self) -> RuntimeAbi {
        self.runtime_abi
    }

    /// Whether the profile uses the freestanding ABI.
    pub closed spec fn is_freestanding_view(&self) -> bool {
        self.runtime_abi is Freestanding
    }

    /// The profile's default output kind.
    pub closed spec fn default_emit_view(&self) -> EmitKind {
        self.default_emit
    }

    /// Whether this profile is what `preset` becomes.
    pub open spec fn is_preset(&self, preset: TargetPreset) -> bool {
        &&& self.name_view() == preset.name@
        &&& self.description_view() == preset.description@
        &&& self.triple_view() == match preset.triple {
            Some(t) => Some(t@),
            None => None::<Seq<char>>,
        }
        &&& match preset.runtime_abi {
            RuntimeAbiKind::Hosted => self.abi_view() is Hosted,
            RuntimeAbiKind::Freestanding => self.abi_view() matches RuntimeAbi::Freestanding(o)
                && o.is_default(),
        }
        &&& self.is_freestanding_view() == (preset.runtime_abi == RuntimeAbiKind::Freestanding)
        &&& self.default_emit_view() == preset.default_emit
    }

    /// Whether this is the hosted native profile.
    pub open spec fn is_native(&self) -> bool {
        &&& self.name_view() == "native"@
        &&& self.triple_view() is None
        &&& self.abi_view() is Hosted
        &&& !self.is_freestanding_view()
        &&& self.default_emit_view() == EmitKind::Executable
    }

    /// Whether this is the hosted profile for the raw triple `t`.
    pub open spec fn is_raw_triple(&self, t: Seq<char>) -> bool {
        &&& self.name_view() == t
        &&& self.description_view() == "raw target triple"@
        &&& self.triple_view() == Some(t)
        &&& self.abi_view() is Hosted
        &&& !self.is_freestanding_view()
        &&& self.default_emit_view() == EmitKind::Executable
    }

    /// The hosted native target profile.
    pub fn native() -> (r: Self)
        ensures
            r.is_native(),
    {
        let targets = known_targets();
        targets[0].profile()
    }

    /// A known target by name, or else `value` as a raw target triple.
    pub fn resolve(value: &str) -> (r: Self)
        ensures
            match preset_named(value@) {
                Some(p) => r.is_preset(p),
                None => r.is_raw_triple(value@),
            },
    {
        match find_target(value) {
            Some(preset) => preset.profile(),
            None => Self::raw_triple(value),
        }
    }

    /// A hosted profile for an arbitrary target triple.
    pub fn raw_triple(triple: &str) -> (r: Self)
        ensures
            r.is_raw_triple(triple@),
    {
        TargetProfile {
            name: triple.to_owned(),
            description: "raw target triple".to_owned(),
            triple: Some(triple.to_owned()),
            runtime_abi: RuntimeAbi::Hosted,
            default_emit: EmitKind::Executable,
        }
    }

    /// A fully custom target profile.
    pub fn custom(
        name: &str,
        description: &str,
        triple: Option<String>,
        runtime_abi: RuntimeAbi,
        default_emit: EmitKind,
    ) -> (r: Self)
        ensures
            r.name_view() == name@,
            r.description_view() == description@,
            r.triple_view() == match triple {
                Some(t) => Some(t@),
                None => None::<Seq<char>>,
            },
            r.abi_view() == runtime_abi,
            r.is_freestanding_view() == runtime_abi is Freestanding,
            r.default_emit_view() == default_emit,
    {
        TargetProfile {
            name: name.to_owned(),
            description: description.to_owned(),
            triple,
            runtime_abi,
            default_emit,
        }
    }

    /// The profile name.
    pub fn name(&self) -> (r: &str)
        ensures
            r@ == self.name_view(),
    {
        self.name.as_str()
    }

    /// The profile description.
    pub fn description(&self) -> (r: &str)
        ensures
            r@ == self.description_view(),
    {
        self.description.as_str()
    }

    /// The target triple, if this profile forces one.
    pub fn triple(&self) -> (r: Option<&str>)
        ensures
            match r {
                Some(t) => self.triple_view() == Some(t@),
                None => self.triple_view() is None,
            },
    {
        match &self.triple {
            Some(t) => Some(t.as_str()),
            None => None,
        }
    }

    /// The target runtime ABI.
    pub fn runtime_abi(&self) -> (r: &RuntimeAbi)
        ensures
            *r == self.abi_view(),
    {
        &self.runtime_abi
    }

    /// Whether this target uses the freestanding ABI.
    pub fn is_freestanding(&self) -> (r: bool)
        ensures
            r == self.is_freestanding_view(),
    {
        self.runtime_abi.is_freestanding()
    }

    /// The default output kind for this target.
    pub fn default_emit(&self) -> (r: EmitKind)
        ensures
            r == self.default_emit_view(),
    {
        self.default_emit
    }

    /// Replace the runtime ABI. Adopting a freestanding ABI turns a default
    /// of executable output into object output.
    pub fn set_runtime_abi(&mut self, runtime_abi: RuntimeAbi)
        ensures
            final(self).abi_view() == runtime_abi,
            final(self).is_freestanding_view() == runtime_abi is Freestanding,
            final(self).name_view() == old(self).name_view(),
            final(self).description_view() == old(self).description_view(),
            final(self).triple_view() == old(self).triple_view(),
            final(self).default_emit_view() == if runtime_abi is Freestanding && old(
                self,
            ).default_emit_view() == EmitKind::Executable {
                EmitKind::Object
            } else {
                old(self).default_emit_view()
            },
    {
        self.runtime_abi = runtime_abi;
        if self.runtime_abi.is_freestanding() && self.default_emit == EmitKind::Executable {
            self.default_emit = EmitKind::Object;
        }
    }

    /// This profile with a different runtime ABI, as [`Self::set_runtime_abi`].
    pub fn with_runtime_abi(self, runtime_abi: RuntimeAbi) -> (r: Self)
        ensures
            r.abi_view() == runtime_abi,
            r.is_freestanding_view() == runtime_abi is Freestanding,
            r.name_view() == self.name_view(),
            r.description_view() == self.description_view(),
            r.triple_view() == self.triple_view(),
            r.default_emit_view() == if runtime_abi is Freestanding && self.default_emit_view()
                == EmitKind::Executable {
                EmitKind::Object
            } else {
                self.default_emit_view()
            },
    {
        let mut profile = self;
        profile.set_runtime_abi(runtime_abi);
        profile
    }
}

/// The built-in presets, in order: `native`, then `x86_64-none`.
pub open spec fn presets_ok(targets: Seq<TargetPreset>) -> bool {
    &&& targets.len() == 2
    &&& targets[0].name@ == "native"@
    &&& targets[0].description@ == "hosted executable or JIT on the host architecture"@
    &&& targets[0].triple is None
    &&& targets[0].runtime_abi == RuntimeAbiKind::Hosted
    &&& targets[0].default_emit == EmitKind::Executable
    &&& targets[1].name@ == "x86_64-none"@
    &&& targets[1].description@ == "x86_64 freestanding object for a caller-provided runtime"@
    &&& targets[1].triple matches Some(t) && t@ == "x86_64-unknown-none-elf"@
    &&& targets[1].runtime_abi == RuntimeAbiKind::Freestanding
    &&& targets[1].default_emit == EmitKind::Object
}

/// The preset named `name`, if there is one.
pub open spec fn preset_named(name: Seq<char>) -> Option<TargetPreset> {
    if name == "native"@ {
        Some(TargetPreset {
            name: "native",
            description: "hosted executable or JIT on the host architecture",
            triple: None,
            runtime_abi: RuntimeAbiKind::Hosted,
            default_emit: EmitKind::Executable,
        })
    } else if name == "x86_64-none"@ {
        Some(TargetPreset {
            name: "x86_64-none",
            description: "x86_64 freestanding object for a caller-provided runtime",
            triple: Some("x86_64-unknown-none-elf"),
            runtime_abi: RuntimeAbiKind::Freestanding,
            default_emit: EmitKind::Object,
        })
    } else {
        None
    }
}

/// All built-in target presets.
pub fn known_targets() -> (r: Vec<TargetPreset>)
    ensures
        presets_ok(r@),
        r@ == seq![preset_named("native"@).unwrap(), preset_named("x86_64-none"@).unwrap()],
{
    let native = TargetPreset {
        name: "native",
        description: "hosted executable or JIT on the host architecture",
        triple: None,
        runtime_abi: RuntimeAbiKind::Hosted,
        default_emit: EmitKind::Executable,
    };
    let freestanding = TargetPreset {
        name: "x86_64-none",
        description: "x86_64 freestanding object for a caller-provided runtime",
        triple: Some("x86_64-unknown-none-elf"),
        runtime_abi: RuntimeAbiKind::Freestanding,
        default_emit: EmitKind::Object,
    };
    proof {
        reveal_strlit("native");
        reveal_strlit("x86_64-none");
        assert("native"@.len() == 6);
        assert("x86_64-none"@.len() == 11);
    }
    let mut targets: Vec<TargetPreset> = Vec::new();
    targets.push(native);
    targets.push(freestanding);
    assert(targets@ =~= seq![preset_named("native"@).unwrap(), preset_named("x86_64-none"@).unwrap()]);
    targets
}

/// The built-in preset named `name`.
pub fn find_target(name: &str) -> (r: Option<TargetPreset>)
    ensures
        r == preset_named(name@),
{
    let targets = known_targets();
    let mut i: usize = 0;
    while i < targets.len()
        invariant
            targets@ == seq![preset_named("native"@).unwrap(), preset_named("x86_64-none"@).unwrap()],
            i <= 2,
            forall|k: int| 0 <= k < i ==> targets@[k].name@ != name@,
        decreases 2 - i,
    {
        if str_eq(targets[i].name, name) {
            return Some(targets[i]);
        }
        i += 1;
    }
    None
}

} // verus!
