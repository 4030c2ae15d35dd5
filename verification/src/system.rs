//! The host's package manager, as far as the runner needs to know it.
use vstd::prelude::*;

verus! {

/// The package manager found on the host.
#[derive(Clone, Copy, Debug, PartialEq, Eq, Structural)]
pub enum PackageManager {
    Pacman,
    Apt,
    Dnf,
    Unknown,
}

/// The package manager picked from which of pacman, apt-get and dnf are on
/// PATH: the first present, in that order.
pub open spec fn manager_for(pacman: bool, apt_get: bool, dnf: bool) -> PackageManager {
    if pacman {
        PackageManager::Pacman
    } else if apt_get {
        PackageManager::Apt
    } else if dnf {
        PackageManager::Dnf
    } else {
        PackageManager::Unknown
    }
}

/// Picks the package manager from which of pacman, apt-get and dnf are on PATH.
pub fn package_manager_from(pacman: bool, apt_get: bool, dnf: bool) -> (r: PackageManager)
    ensures
        r == manager_for(pacman, apt_get, dnf),
{
    if pacman {
        PackageManager::Pacman
    } else if apt_get {
        PackageManager::Apt
    } else if dnf {
        PackageManager::Dnf
    } else {
        PackageManager::Unknown
    }
}

} // verus!
