//! Launch at login through the per-user `Run` registry value: the command
//! that is registered, and the decisions that keep the value in step with the
//! user's preference.
use vstd::prelude::*;

use crate::listener::{lemma_log_push, lemma_log_since_split, log_extends, log_since};
use crate::text::{chars_of, copy_until_nul, decode_utf16_lossy, push_char, str_equal, until_nul, utf16_decode_lossy};

verus! {

/// Flag appended to the registered command so a login launch can be told apart.
pub const AUTOSTART_ARGUMENT: &'static str = "--autostart";

/// Why reading or changing the autostart entry failed.
#[derive(Debug, Clone, PartialEq, Eq)]
pub enum AutostartError {
    LockPoisoned,
    CurrentExecutable(String),
    Registry { operation: &'static str, status: u32 },
}

/// The characters of the autostart flag.
pub open spec fn autostart_flag() -> Seq<char> {
    seq!['-', '-', 'a', 'u', 't', 'o', 's', 't', 'a', 'r', 't']
}

/// Whether the process arguments hold the autostart flag.
pub fn is_autostart_launch(arguments: &[String]) -> (result: bool)
    ensures
        result <==> exists|i: int| 0 <= i < arguments@.len() && arguments@[i]@ == autostart_flag(),
{
    let flag = AUTOSTART_ARGUMENT;
    proof {
        reveal_strlit("--autostart");
    }
    let mut i: usize = 0;
    while i < arguments.len()
        invariant
            i <= arguments@.len(),
            flag@ == autostart_flag(),
            forall|j: int| 0 <= j < i ==> arguments@[j]@ != autostart_flag(),
        decreases arguments.len() - i,
    {
        if str_equal(arguments[i].as_str(), flag) {
            return true;
        }
        i += 1;
    }
    false
}

/// The registered command for `executable`: the quoted path, a space and the flag.
pub open spec fn autostart_command_spec(executable: Seq<char>) -> Seq<char> {
    seq!['"'] + executable + seq!['"', ' '] + autostart_flag()
}

/// Builds the autostart command (`"<exe>" --autostart`); quoting keeps paths
/// with spaces intact.
pub fn autostart_command(executable: &str) -> (command: String)
    ensures
        command@ == autostart_command_spec(executable@),
{
    let mut command = String::new();
    push_char(&mut command, '"');
    let chars = chars_of(executable);
    let mut i: usize = 0;
    while i < chars.len()
        invariant
            i <= chars@.len(),
            command@ == seq!['"'] + chars@.subrange(0, i as int),
        decreases chars.len() - i,
    {
        push_char(&mut command, chars[i]);
        i += 1;
        assert(command@ =~= seq!['"'] + chars@.subrange(0, i as int));
    }
    push_char(&mut command, '"');
    push_char(&mut command, ' ');
    let flag = chars_of(AUTOSTART_ARGUMENT);
    proof {
        reveal_strlit("--autostart");
    }
    let ghost base = command@;
    let mut k: usize = 0;
    while k < flag.len()
        invariant
            k <= flag@.len(),
            flag@ == autostart_flag(),
            command@ == base + flag@.subrange(0, k as int),
        decreases flag.len() - k,
    {
        push_char(&mut command, flag[k]);
        k += 1;
        assert(command@ =~= base + flag@.subrange(0, k as int));
    }
    assert(chars@.subrange(0, chars@.len() as int) =~= executable@);
    assert(command@ =~= autostart_command_spec(executable@));
    command
}

/// The status a registry call answers on success.
pub const REGISTRY_SUCCESS: u32 = 0;
/// The status a registry call answers when the key or value is missing.
pub const REGISTRY_NOT_FOUND: u32 = 2;
/// The registry type of a plain string value.
pub const REGISTRY_STRING_TYPE: u32 = 1;

/// What opening the `Run` key answered `status` means for reading the
/// command: `Ok(true)` to go on, `Ok(false)` when the key is missing (no
/// command), any other failure an error of the open.
pub fn run_key_opened(status: u32) -> (result: Result<bool, AutostartError>)
    ensures
        result == if status == REGISTRY_NOT_FOUND {
            Ok::<bool, AutostartError>(false)
        } else if status != REGISTRY_SUCCESS {
            Err(AutostartError::Registry { operation: "RegOpenKeyExW", status })
        } else {
            Ok(true)
        },
{
    if status == REGISTRY_NOT_FOUND {
        Ok(false)
    } else if status != REGISTRY_SUCCESS {
        Err(AutostartError::Registry { operation: "RegOpenKeyExW", status })
    } else {
        Ok(true)
    }
}

/// What asking the size of the command value answered means: `Ok(None)`
/// when the value is missing, is not a plain string or is empty (no
/// command); any other failure an error of the query; otherwise the number
/// of UTF-16 units to read, enough for `byte_len` bytes.
pub fn run_value_sized(status: u32, value_type: u32, byte_len: u32) -> (result: Result<Option<usize>, AutostartError>)
    ensures
        result == if status == REGISTRY_NOT_FOUND {
            Ok::<Option<usize>, AutostartError>(None)
        } else if status != REGISTRY_SUCCESS {
            Err(AutostartError::Registry { operation: "RegQueryValueExW", status })
        } else if value_type != REGISTRY_STRING_TYPE || byte_len == 0 {
            Ok(None)
        } else {
            Ok(Some(((byte_len as int + 1) / 2) as usize))
        },
{
    if status == REGISTRY_NOT_FOUND {
        Ok(None)
    } else if status != REGISTRY_SUCCESS {
        Err(AutostartError::Registry { operation: "RegQueryValueExW", status })
    } else if value_type != REGISTRY_STRING_TYPE || byte_len == 0 {
        Ok(None)
    } else {
        Ok(Some((byte_len / 2 + byte_len % 2) as usize))
    }
}

/// The command stored in a `REG_SZ` value: the units that `byte_count` bytes
/// cover, up to the first NUL, decoded lossily; `None` when that is empty.
pub open spec fn registry_command(buffer: Seq<u16>, byte_count: u32) -> Option<Seq<char>> {
    let available = if byte_count / 2 < buffer.len() {
        (byte_count / 2) as int
    } else {
        buffer.len() as int
    };
    let command = utf16_decode_lossy(until_nul(buffer.subrange(0, available)));
    if command.len() == 0 {
        None
    } else {
        Some(command)
    }
}

/// Decodes the command read from the `Run` value.
pub fn registry_command_from_buffer(buffer: &[u16], byte_count: u32) -> (result: Option<String>)
    ensures
        match registry_command(buffer@, byte_count) {
            Some(command) => result matches Some(text) && text@ == command,
            None => result is None,
        },
{
    let units_len = (byte_count / 2) as usize;
    let available = if units_len < buffer.len() {
        units_len
    } else {
        buffer.len()
    };
    let prefix = copy_until_nul(buffer, available);
    let command = decode_utf16_lossy(prefix.as_slice());
    if command.as_str().is_empty() {
        None
    } else {
        Some(command)
    }
}

/// What keeping the `Run` value in step needs.
#[derive(Debug, Clone, Copy, PartialEq, Eq, Structural)]
pub enum AutostartChange {
    Unchanged,
    Write,
    Remove,
}

/// The change `set(enabled)` makes when the value currently holds `current`.
pub open spec fn set_change(current: Option<Seq<char>>, desired: Seq<char>, enabled: bool) -> AutostartChange {
    if enabled {
        if current == Some(desired) {
            AutostartChange::Unchanged
        } else {
            AutostartChange::Write
        }
    } else if current is None {
        AutostartChange::Unchanged
    } else {
        AutostartChange::Remove
    }
}

/// The change `sync_if_enabled` makes: rewrite a stale command, never enable.
pub open spec fn sync_change(current: Option<Seq<char>>, desired: Seq<char>) -> AutostartChange {
    match current {
        Some(command) => if command != desired {
            AutostartChange::Write
        } else {
            AutostartChange::Unchanged
        },
        None => AutostartChange::Unchanged,
    }
}

/// The value after a change.
pub open spec fn value_after(current: Option<Seq<char>>, desired: Seq<char>, change: AutostartChange) -> Option<
    Seq<char>,
> {
    match change {
        AutostartChange::Unchanged => current,
        AutostartChange::Write => Some(desired),
        AutostartChange::Remove => None,
    }
}

/// Decides what `set(enabled)` must change.
pub fn plan_set(current: &Option<String>, desired: &str, enabled: bool) -> (change: AutostartChange)
    ensures
        change == set_change(
            match current {
                Some(c) => Some(c@),
                None => None,
            },
            desired@,
            enabled,
        ),
{
    if enabled {
        match current {
            Some(command) => {
                if str_equal(command.as_str(), desired) {
                    AutostartChange::Unchanged
                } else {
                    AutostartChange::Write
                }
            },
            None => AutostartChange::Write,
        }
    } else {
        match current {
            Some(_) => AutostartChange::Remove,
            None => AutostartChange::Unchanged,
        }
    }
}

/// Decides what `sync_if_enabled` must change.
pub fn plan_sync(current: &Option<String>, desired: &str) -> (change: AutostartChange)
    ensures
        change == sync_change(
            match current {
                Some(c) => Some(c@),
                None => None,
            },
            desired@,
        ),
{
    match current {
        Some(command) => {
            if str_equal(command.as_str(), desired) {
                AutostartChange::Unchanged
            } else {
                AutostartChange::Write
            }
        },
        None => AutostartChange::Unchanged,
    }
}

/// Setting the same preference twice changes the value at most once.
pub proof fn lemma_set_is_idempotent(current: Option<Seq<char>>, desired: Seq<char>, enabled: bool)
    ensures
        set_change(value_after(current, desired, set_change(current, desired, enabled)), desired, enabled)
            == AutostartChange::Unchanged,
{
}

/// Syncing never turns a disabled autostart on, and a synced value needs no further sync.
pub proof fn lemma_sync_never_enables(current: Option<Seq<char>>, desired: Seq<char>)
    ensures
        current is None ==> value_after(current, desired, sync_change(current, desired)) is None,
        sync_change(value_after(current, desired, sync_change(current, desired)), desired)
            == AutostartChange::Unchanged,
{
}

/// An optional command as characters.
pub open spec fn command_view(command: Option<String>) -> Option<Seq<char>> {
    match command {
        Some(text) => Some(text@),
        None => None,
    }
}

/// One call made to the `Run` registry value, with its answer.
pub enum RegistryCall {
    Read(Result<Option<String>, AutostartError>),
    Write(Seq<char>, Result<(), AutostartError>),
    Remove(Result<(), AutostartError>),
}

/// The `Run` registry value that holds the autostart command. `calls` names
/// the calls made so far, oldest first, each with its answer.
pub trait AutostartRegistry {
    /// The calls made so far.
    spec fn calls(&self) -> Seq<RegistryCall>;

    /// The current command, or `None` when the value is absent or empty.
    fn read_command(&mut self) -> (result: Result<Option<String>, AutostartError>)
        ensures
            final(self).calls() == old(self).calls().push(RegistryCall::Read(result)),
    ;

    /// Stores `command`.
    fn write_command(&mut self, command: &str) -> (result: Result<(), AutostartError>)
        ensures
            final(self).calls() == old(self).calls().push(RegistryCall::Write(command@, result)),
    ;

    /// Removes the value.
    fn remove(&mut self) -> (result: Result<(), AutostartError>)
        ensures
            final(self).calls() == old(self).calls().push(RegistryCall::Remove(result)),
    ;
}

/// The registry of a platform without a `Run` key: nothing is registered,
/// and writes are accepted and dropped.
pub struct NoopAutostartRegistry {
    calls: Ghost<Seq<RegistryCall>>,
}

impl NoopAutostartRegistry {
    /// A registry with no calls made yet.
    pub fn new() -> (registry: Self)
        ensures
            registry.calls() == Seq::<RegistryCall>::empty(),
    {
        NoopAutostartRegistry { calls: Ghost(Seq::empty()) }
    }
}

impl AutostartRegistry for NoopAutostartRegistry {
    closed spec fn calls(&self) -> Seq<RegistryCall> {
        self.calls@
    }

    fn read_command(&mut self) -> (result: Result<Option<String>, AutostartError>)
        ensures
            result == Ok::<Option<String>, AutostartError>(None),
    {
        let result = Ok(None);
        proof {
            self.calls@ = self.calls@.push(RegistryCall::Read(result));
        }
        result
    }

    fn write_command(&mut self, command: &str) -> (result: Result<(), AutostartError>)
        ensures
            result == Ok::<(), AutostartError>(()),
    {
        let result = Ok(());
        proof {
            self.calls@ = self.calls@.push(RegistryCall::Write(command@, result));
        }
        result
    }

    fn remove(&mut self) -> (result: Result<(), AutostartError>)
        ensures
            result == Ok::<(), AutostartError>(()),
    {
        let result = Ok(());
        proof {
            self.calls@ = self.calls@.push(RegistryCall::Remove(result));
        }
        result
    }
}

/// Keeps the `Run` value in step with the autostart preference.
pub struct AutostartManager<R: AutostartRegistry> {
    registry: R,
    desired_command: String,
}

/// Whether `calls`, made after the registry was read, carry out `change`
/// with the command `desired`, and `result` is what the change answered:
/// whether it changed the value, or the error of the write or removal.
pub open spec fn change_applied(
    calls: Seq<RegistryCall>,
    desired: Seq<char>,
    change: AutostartChange,
    result: Result<bool, AutostartError>,
) -> bool {
    match change {
        AutostartChange::Unchanged => calls.len() == 0 && result == Ok::<bool, AutostartError>(false),
        AutostartChange::Write => calls.len() == 1 && match calls[0] {
            RegistryCall::Write(command, written) => command == desired && result == match written {
                Ok(_) => Ok::<bool, AutostartError>(true),
                Err(error) => Err(error),
            },
            _ => false,
        },
        AutostartChange::Remove => calls.len() == 1 && match calls[0] {
            RegistryCall::Remove(removed) => result == match removed {
                Ok(_) => Ok::<bool, AutostartError>(true),
                Err(error) => Err(error),
            },
            _ => false,
        },
    }
}

/// Whether `calls` and `result` are what `set(enabled)` made and answered:
/// the value is read; a failed read ends it with its error; otherwise the
/// change `set_change` plans for the value read is carried out.
pub open spec fn set_follows(
    calls: Seq<RegistryCall>,
    desired: Seq<char>,
    enabled: bool,
    result: Result<bool, AutostartError>,
) -> bool {
    &&& calls.len() >= 1
    &&& match calls[0] {
        RegistryCall::Read(Err(error)) => calls.len() == 1 && result == Err::<bool, AutostartError>(error),
        RegistryCall::Read(Ok(current)) => change_applied(
            calls.drop_first(),
            desired,
            set_change(command_view(current), desired, enabled),
            result,
        ),
        _ => false,
    }
}

/// Whether `calls` and `result` are what `sync_if_enabled` made and
/// answered: as `set_follows`, with the change `sync_change` plans.
pub open spec fn sync_follows(calls: Seq<RegistryCall>, desired: Seq<char>, result: Result<bool, AutostartError>) -> bool {
    &&& calls.len() >= 1
    &&& match calls[0] {
        RegistryCall::Read(Err(error)) => calls.len() == 1 && result == Err::<bool, AutostartError>(error),
        RegistryCall::Read(Ok(current)) => change_applied(
            calls.drop_first(),
            desired,
            sync_change(command_view(current), desired),
            result,
        ),
        _ => false,
    }
}

/// Whether `calls` and `result` are what `is_enabled` made and answered: one
/// read, and whether it found a command.
pub open spec fn enabled_follows(calls: Seq<RegistryCall>, result: Result<bool, AutostartError>) -> bool {
    &&& calls.len() == 1
    &&& match calls[0] {
        RegistryCall::Read(Err(error)) => result == Err::<bool, AutostartError>(error),
        RegistryCall::Read(Ok(current)) => result == Ok::<bool, AutostartError>(current is Some),
        _ => false,
    }
}

impl<R: AutostartRegistry> AutostartManager<R> {
    /// The command this manager registers.
    pub closed spec fn desired(&self) -> Seq<char> {
        self.desired_command@
    }

    /// The calls made to the registry so far.
    pub closed spec fn calls(&self) -> Seq<RegistryCall> {
        self.registry.calls()
    }

    /// A manager that registers `desired_command` in `registry`.
    pub fn new(registry: R, desired_command: String) -> (result: Self)
        ensures
            result.desired() == desired_command@,
            result.calls() == registry.calls(),
    {
        AutostartManager { registry, desired_command }
    }

    /// Whether a login autostart entry is registered.
    pub fn is_enabled(&mut self) -> (result: Result<bool, AutostartError>)
        ensures
            final(self).desired() == old(self).desired(),
            log_extends(old(self).calls(), final(self).calls()),
            enabled_follows(log_since(old(self).calls(), final(self).calls()), result),
    {
        let ghost start = self.registry.calls();
        let read = self.registry.read_command();
        proof {
            lemma_log_push(start, RegistryCall::Read(read));
        }
        match read {
            Ok(command) => Ok(command.is_some()),
            Err(error) => Err(error),
        }
    }

    /// Applies a planned change to the registry and reports whether it changed.
    fn apply(&mut self, change: AutostartChange) -> (result: Result<bool, AutostartError>)
        ensures
            final(self).desired() == old(self).desired(),
            log_extends(old(self).calls(), final(self).calls()),
            change_applied(log_since(old(self).calls(), final(self).calls()), old(self).desired(), change, result),
    {
        let ghost start = self.registry.calls();
        match change {
            AutostartChange::Unchanged => {
                proof {
                    assert(start.subrange(0, start.len() as int) =~= start);
                    assert(log_since(start, start) =~= Seq::<RegistryCall>::empty());
                }
                Ok(false)
            },
            AutostartChange::Write => {
                let written = self.registry.write_command(self.desired_command.as_str());
                proof {
                    lemma_log_push(start, RegistryCall::Write(self.desired_command@, written));
                }
                match written {
                    Ok(()) => Ok(true),
                    Err(error) => Err(error),
                }
            },
            AutostartChange::Remove => {
                let removed = self.registry.remove();
                proof {
                    lemma_log_push(start, RegistryCall::Remove(removed));
                }
                match removed {
                    Ok(()) => Ok(true),
                    Err(error) => Err(error),
                }
            },
        }
    }

    /// Enables or disables autostart; `Ok(true)` when the value was changed.
    /// A failed read changes nothing.
    pub fn set(&mut self, enabled: bool) -> (result: Result<bool, AutostartError>)
        ensures
            final(self).desired() == old(self).desired(),
            log_extends(old(self).calls(), final(self).calls()),
            set_follows(log_since(old(self).calls(), final(self).calls()), old(self).desired(), enabled, result),
    {
        let ghost start = self.registry.calls();
        let read = self.registry.read_command();
        proof {
            lemma_log_push(start, RegistryCall::Read(read));
        }
        let current = match read {
            Ok(current) => current,
            Err(error) => {
                return Err(error);
            },
        };
        let ghost middle = self.registry.calls();
        let change = plan_set(&current, self.desired_command.as_str(), enabled);
        let result = self.apply(change);
        proof {
            lemma_log_since_split(start, middle, self.registry.calls());
            assert(log_since(start, self.registry.calls()).drop_first() =~= log_since(middle, self.registry.calls()));
        }
        result
    }

    /// Rewrites a stale command when autostart is enabled; never enables it.
    pub fn sync_if_enabled(&mut self) -> (result: Result<bool, AutostartError>)
        ensures
            final(self).desired() == old(self).desired(),
            log_extends(old(self).calls(), final(self).calls()),
            sync_follows(log_since(old(self).calls(), final(self).calls()), old(self).desired(), result),
    {
        let ghost start = self.registry.calls();
        let read = self.registry.read_command();
        proof {
            lemma_log_push(start, RegistryCall::Read(read));
        }
        let current = match read {
            Ok(current) => current,
            Err(error) => {
                return Err(error);
            },
        };
        let ghost middle = self.registry.calls();
        let change = plan_sync(&current, self.desired_command.as_str());
        let result = self.apply(change);
        proof {
            lemma_log_since_split(start, middle, self.registry.calls());
            assert(log_since(start, self.registry.calls()).drop_first() =~= log_since(middle, self.registry.calls()));
        }
        result
    }
}

} // verus!
