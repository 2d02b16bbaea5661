//! Sending a standard stream to a file for the length of one command, and back.
//!
//! Redirecting `target_fd` takes two system calls: `dup(target_fd)` keeps a copy of the
//! stream to restore later, and `dup2(file_fd, target_fd)` points the stream at the file.
//! The decisions between and after them are made here; the calls themselves are made by
//! the program around the library.
use vstd::prelude::*;

verus! {

/// A redirection whose first step, keeping a copy of the stream, succeeded.
pub struct PendingRedirect {
    saved_fd: i32,
    target_fd: i32,
}

/// A stream pointed at a file, with the copy of its former target that restores it.
pub struct FdRedirectGuard {
    saved_fd: i32,
    target_fd: i32,
}

/// How a redirection failed.
#[derive(Debug, Clone, Copy, PartialEq, Eq, Structural)]
pub enum RedirectFailure {
    /// `dup` failed: nothing was changed.
    Dup,
    /// `dup2` failed: the copy kept by `dup`, this descriptor, must be closed.
    Dup2 { close: i32 },
}

impl PendingRedirect {
    /// The descriptor that keeps the former target of the stream.
    pub closed spec fn saved(&self) -> i32 {
        self.saved_fd
    }

    /// The stream being redirected.
    pub closed spec fn target(&self) -> i32 {
        self.target_fd
    }

    /// The first step of redirecting `target_fd`, given what `dup(target_fd)` returned:
    /// a negative result is a failure, any other is the kept copy.
    pub fn after_dup(target_fd: i32, saved: i32) -> (r: Result<PendingRedirect, RedirectFailure>)
        ensures
            saved < 0 ==> r == Err::<PendingRedirect, RedirectFailure>(RedirectFailure::Dup),
            saved >= 0 ==> (r matches Ok(p) && p.saved() == saved && p.target() == target_fd),
    {
        if saved < 0 {
            Err(RedirectFailure::Dup)
        } else {
            Ok(PendingRedirect { saved_fd: saved, target_fd })
        }
    }

    /// The second step, given what `dup2(file_fd, target_fd)` returned: a negative result
    /// is a failure that leaves the kept copy to close; any other completes the redirection.
    pub fn after_dup2(self, result: i32) -> (r: Result<FdRedirectGuard, RedirectFailure>)
        ensures
            result < 0 ==> r == Err::<FdRedirectGuard, RedirectFailure>(RedirectFailure::Dup2 { close: self.saved() }),
            result >= 0 ==> (r matches Ok(g) && g.saved() == self.saved() && g.target() == self.target()),
    {
        if result < 0 {
            Err(RedirectFailure::Dup2 { close: self.saved_fd })
        } else {
            Ok(FdRedirectGuard { saved_fd: self.saved_fd, target_fd: self.target_fd })
        }
    }
}

impl FdRedirectGuard {
    /// The descriptor that keeps the former target of the stream; negative once released.
    pub closed spec fn saved(&self) -> i32 {
        self.saved_fd
    }

    /// The redirected stream.
    pub closed spec fn target(&self) -> i32 {
        self.target_fd
    }

    /// What ending the redirection gives and leaves: where the kept copy is a descriptor
    /// above 0, the copy and the stream, and a guard marked released (copy -1); otherwise
    /// nothing, and the guard as it was.
    pub closed spec fn spec_release(self) -> (Option<(i32, i32)>, FdRedirectGuard) {
        if self.saved_fd > 0 {
            (Some((self.saved_fd, self.target_fd)), FdRedirectGuard { saved_fd: -1i32, target_fd: self.target_fd })
        } else {
            (None, self)
        }
    }

    /// Ends the redirection, as dropping the guard does: gives the kept copy and the
    /// stream, so that the copy is put back with `dup2(saved, target)` and closed.
    pub fn release(&mut self) -> (r: Option<(i32, i32)>)
        ensures
            (r, *final(self)) == old(self).spec_release(),
            old(self).saved() > 0 ==> r == Some((old(self).saved(), old(self).target()))
                && final(self).saved() == -1i32 && final(self).target() == old(self).target(),
            old(self).saved() <= 0 ==> r is None,
    {
        if self.saved_fd > 0 {
            let r = Some((self.saved_fd, self.target_fd));
            self.saved_fd = -1;
            r
        } else {
            None
        }
    }
}

/// A stream is restored at most once: releasing a guard a second time gives nothing.
pub proof fn law_release_once(g: FdRedirectGuard)
    ensures
        g.spec_release().1.spec_release().0 is None,
{
}

/// Releasing a guard that a successful redirection made gives back the kept copy and the
/// stream of that redirection, where the copy is above 0.
pub proof fn law_release_restores(p: PendingRedirect, g: FdRedirectGuard)
    requires
        g.saved() == p.saved(),
        g.target() == p.target(),
        p.saved() > 0,
    ensures
        g.spec_release().0 == Some((p.saved(), p.target())),
{
}

} // verus!
