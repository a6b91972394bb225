use vstd::prelude::*;

verus! {

/// The container runtime the user has chosen to drive.
#[derive(Debug, Clone, Copy, PartialEq, Eq, Structural)]
pub enum ProviderKind {
    /// A Docker Engine socket: external if available, otherwise the bundled Colima.
    Docker,
    /// Apple's native `container` CLI.
    Apple,
    /// The bundled Colima VM, even if an external Docker socket exists.
    Colima,
}

impl ProviderKind {
    /// True when this provider is driven through the Docker Engine API.
    pub fn uses_docker_api(self) -> (r: bool)
        ensures
            r <==> (self == ProviderKind::Docker || self == ProviderKind::Colima),
    {
        match self {
            ProviderKind::Docker | ProviderKind::Colima => true,
            ProviderKind::Apple => false,
        }
    }
}


impl Default for ProviderKind {
    /// Docker, the behaviour from before other providers existed.
    fn default() -> (r: ProviderKind)
        ensures
            r == ProviderKind::Docker,
    {
        ProviderKind::Docker
    }
}

/// The provider the user has selected, kept so that commands can read it
/// without touching the stored configuration.
pub struct ProviderState {
    current: ProviderKind,
}

impl ProviderState {
    /// The provider currently selected.
    pub closed spec fn selected(&self) -> ProviderKind {
        self.current
    }

    /// A state holding `initial`.
    pub fn new(initial: ProviderKind) -> (r: ProviderState)
        ensures
            r.selected() == initial,
    {
        ProviderState { current: initial }
    }

    /// The provider currently selected.
    pub fn get(&self) -> (r: ProviderKind)
        ensures
            r == self.selected(),
    {
        self.current
    }

    /// Selects `provider`.
    pub fn set(&mut self, provider: ProviderKind)
        ensures
            final(self).selected() == provider,
    {
        self.current = provider;
    }
}

} // verus!
