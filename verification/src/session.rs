//! Which session a process belongs to, and where that session's record lies.
//!
//! A session is one terminal window within one boot of the machine. Its key
//! is made of two readings of the host: when the machine booted, and which
//! process started the running program. Every invocation from one shell has
//! the same key; another shell, or the same shell after a reboot, has another.

use vstd::prelude::*;
use crate::decimal::decimal;
use crate::decimal::is_digit;
use crate::decimal::lemma_decimal_is_injective;
use crate::decimal::lemma_digits_are_digits;
use crate::decimal::render_decimal;

verus! {

/// The key of a session.
#[derive(Clone, Copy, Debug, PartialEq, Eq, Hash, Structural)]
pub struct SessionKey {
    /// The boot generation: when the machine booted, in whole seconds.
    pub epoch: i64,
    /// The conversation within that boot: the identifier of the owning shell.
    pub scope: i32,
}

/// Why no session key could be made.
#[derive(Clone, Copy, Debug, PartialEq, Eq, Structural)]
pub enum IdentityError {
    /// The boot time of the machine could not be read.
    BootTimeUnknown,
    /// The process has no parent that could be identified.
    ParentUnknown,
}

/// The key that two readings of the host give: the boot time in seconds, and
/// the identifier of the parent process. A process identifier is positive;
/// any other value identifies nothing.
pub open spec fn key_from_readings(boot_seconds: Option<i64>, parent: Option<i32>) -> Result<
    SessionKey,
    IdentityError,
> {
    match (boot_seconds, parent) {
        (None, _) => Err(IdentityError::BootTimeUnknown),
        (Some(epoch), Some(scope)) if scope > 0 => Ok(SessionKey { epoch, scope }),
        (Some(_), _) => Err(IdentityError::ParentUnknown),
    }
}

/// Whether `segment` can stand as one name in a path: it is not empty and
/// holds nothing but digits and the minus sign.
pub open spec fn is_path_safe(segment: Seq<char>) -> bool {
    &&& segment.len() > 0
    &&& forall|i: int| 0 <= i < segment.len() ==> is_digit(#[trigger] segment[i]) || segment[i] == '-'
}

/// A number in decimal is safe as a name in a path.
pub proof fn lemma_decimal_is_path_safe(n: int)
    ensures
        is_path_safe(decimal(n)),
{
    if n < 0 {
        lemma_digits_are_digits((-n) as nat);
    } else {
        lemma_digits_are_digits(n as nat);
    }
}

/// The names that lead from the user's home to the record of `key`: the
/// store's directory, the epoch, the scope, and the record's file.
pub open spec fn location_of(key: SessionKey) -> Seq<Seq<char>> {
    seq![".chatgpt"@, decimal(key.epoch as int), decimal(key.scope as int), "chatlog.json"@]
}

/// Two keys with the same location are the same key: sessions never share a
/// record.
pub proof fn lemma_location_is_injective(a: SessionKey, b: SessionKey)
    requires
        location_of(a) == location_of(b),
    ensures
        a == b,
{
    assert(location_of(a)[1] == location_of(b)[1]);
    assert(location_of(a)[2] == location_of(b)[2]);
    lemma_decimal_is_injective(a.epoch as int, b.epoch as int);
    lemma_decimal_is_injective(a.scope as int, b.scope as int);
}

/// The two names of a location that come from the key are safe as names in
/// a path.
pub proof fn lemma_location_is_path_safe(key: SessionKey)
    ensures
        location_of(key).len() == 4,
        is_path_safe(location_of(key)[1]),
        is_path_safe(location_of(key)[2]),
{
    lemma_decimal_is_path_safe(key.epoch as int);
    lemma_decimal_is_path_safe(key.scope as int);
}

/// Asks the operating system which process started this one, through
/// `rustix::process::getppid`. The answer depends on the running process, so
/// nothing is claimed of it but what the outside type holds: an identifier,
/// where there is one, is positive.
#[verifier::external_body]
fn parent_process() -> (parent: Option<i32>)
    ensures
        parent matches Some(id) ==> id > 0,
{
    rustix::process::getppid().map(|pid| pid.as_raw_nonzero().get())
}

impl SessionKey {
    /// Makes the key from two readings of the host. It fails when the boot
    /// time is missing, and otherwise when no positive parent identifier is
    /// given.
    pub fn from_readings(boot_seconds: Option<i64>, parent: Option<i32>) -> (r: Result<
        SessionKey,
        IdentityError,
    >)
        ensures
            r == key_from_readings(boot_seconds, parent),
    {
        match boot_seconds {
            None => Err(IdentityError::BootTimeUnknown),
            Some(epoch) => match parent {
                Some(scope) => {
                    if scope > 0 {
                        Ok(SessionKey { epoch, scope })
                    } else {
                        Err(IdentityError::ParentUnknown)
                    }
                },
                None => Err(IdentityError::ParentUnknown),
            },
        }
    }

    /// The names that lead from the user's home to this session's record.
    /// The same key always gives the same names, and no other key gives them.
    pub fn record_location(&self) -> (names: Vec<String>)
        ensures
            names.deep_view() == location_of(*self),
            names.len() == 4,
            is_path_safe(names[1]@),
            is_path_safe(names[2]@),
    {
        let mut names: Vec<String> = Vec::new();
        names.push(".chatgpt".to_owned());
        names.push(render_decimal(self.epoch));
        names.push(render_decimal(self.scope as i64));
        names.push("chatlog.json".to_owned());
        proof {
            assert(names.deep_view() =~= location_of(*self));
            lemma_location_is_path_safe(*self);
        }
        names
    }
}

/// Makes the key of the session that the running process belongs to. The
/// boot time is handed in by the caller; the parent process is asked of the
/// operating system here.
///
/// Without a boot time it fails with `BootTimeUnknown`. With one, the key, if
/// there is one, has that epoch and a positive scope; the only other outcome
/// is `ParentUnknown`.
pub fn resolve_session_key(boot_seconds: Option<i64>) -> (r: Result<SessionKey, IdentityError>)
    ensures
        boot_seconds is None ==> r == Err::<SessionKey, IdentityError>(
            IdentityError::BootTimeUnknown,
        ),
        boot_seconds matches Some(epoch) ==> match r {
            Ok(key) => key.epoch == epoch && key.scope > 0,
            Err(e) => e == IdentityError::ParentUnknown,
        },
{
    let parent = parent_process();
    SessionKey::from_readings(boot_seconds, parent)
}

} // verus!
