use std::cell::RefCell;

use opendesktools::autostart::{
    run_key_opened, run_value_sized,
    NoopAutostartRegistry,
    autostart_command, is_autostart_launch, plan_set, plan_sync, AutostartChange, AutostartError,
    AutostartManager, AutostartRegistry, RegistryCall,
};

#[derive(Default)]
struct FakeRegistry {
    value: RefCell<Option<String>>,
    writes: RefCell<Vec<String>>,
    removes: RefCell<u32>,
}

impl FakeRegistry {
    fn with_value(value: &str) -> Self {
        let registry = FakeRegistry::default();
        *registry.value.borrow_mut() = Some(value.to_owned());
        registry
    }

    fn snapshot(&self) -> Option<String> {
        self.value.borrow().clone()
    }

    fn write_count(&self) -> usize {
        self.writes.borrow().len()
    }

    fn remove_count(&self) -> u32 {
        *self.removes.borrow()
    }
}

impl AutostartRegistry for &FakeRegistry {
    fn calls(&self) -> vstd::seq::Seq<RegistryCall> {
        unreachable!()
    }

    fn read_command(&mut self) -> Result<Option<String>, AutostartError> {
        Ok(self.value.borrow().clone())
    }

    fn write_command(&mut self, command: &str) -> Result<(), AutostartError> {
        *self.value.borrow_mut() = Some(command.to_owned());
        self.writes.borrow_mut().push(command.to_owned());
        Ok(())
    }

    fn remove(&mut self) -> Result<(), AutostartError> {
        *self.value.borrow_mut() = None;
        *self.removes.borrow_mut() += 1;
        Ok(())
    }
}

const COMMAND: &str = "\"C:\\Apps\\OpenDeskTools.exe\" --autostart";

fn manager(registry: &FakeRegistry) -> AutostartManager<&FakeRegistry> {
    AutostartManager::new(registry, COMMAND.to_owned())
}

#[test]
fn autostart_command_quotes_paths_and_appends_the_flag() {
    let command = autostart_command(r"C:\Program Files\OpenDeskTools\app.exe");
    assert_eq!(
        command,
        "\"C:\\Program Files\\OpenDeskTools\\app.exe\" --autostart"
    );
}

#[test]
fn is_autostart_launch_only_matches_the_flag() {
    assert!(is_autostart_launch(&[
        "OpenDeskTools.exe".to_owned(),
        "--autostart".to_owned(),
    ]));
    assert!(!is_autostart_launch(&[
        "OpenDeskTools.exe".to_owned(),
        "--data-dir".to_owned(),
        "data".to_owned(),
    ]));
    assert!(!is_autostart_launch(&["OpenDeskTools.exe".to_owned()]));
}

#[test]
fn is_enabled_reflects_registry_presence() {
    let registry = FakeRegistry::default();
    let mut manager = manager(&registry);
    assert!(!manager.is_enabled().unwrap());

    manager.set(true).unwrap();
    assert!(manager.is_enabled().unwrap());
}

#[test]
fn enabling_writes_the_desired_command_once_and_is_idempotent() {
    let registry = FakeRegistry::default();
    let mut manager = manager(&registry);

    assert!(manager.set(true).unwrap());
    assert_eq!(registry.snapshot().as_deref(), Some(COMMAND));

    assert!(!manager.set(true).unwrap());
    assert_eq!(registry.write_count(), 1);
}

#[test]
fn disabling_removes_the_value_once_and_is_idempotent() {
    let registry = FakeRegistry::with_value(COMMAND);
    let mut manager = manager(&registry);

    assert!(manager.set(false).unwrap());
    assert_eq!(registry.snapshot(), None);
    assert_eq!(registry.remove_count(), 1);

    assert!(!manager.set(false).unwrap());
    assert_eq!(registry.remove_count(), 1);
}

#[test]
fn enabling_rewrites_a_stale_command_path() {
    let registry = FakeRegistry::with_value("\"C:\\Old\\OpenDeskTools.exe\" --autostart");
    let mut manager = manager(&registry);

    assert!(manager.set(true).unwrap());
    assert_eq!(registry.snapshot().as_deref(), Some(COMMAND));
}

#[test]
fn sync_if_enabled_heals_stale_path_but_leaves_disabled_untouched() {
    let disabled = FakeRegistry::default();
    let mut disabled_manager = manager(&disabled);
    assert!(!disabled_manager.sync_if_enabled().unwrap());
    assert_eq!(disabled.snapshot(), None);

    let stale = FakeRegistry::with_value("\"C:\\Old\\OpenDeskTools.exe\" --autostart");
    let mut stale_manager = manager(&stale);
    assert!(stale_manager.sync_if_enabled().unwrap());
    assert_eq!(stale.snapshot().as_deref(), Some(COMMAND));

    assert!(!stale_manager.sync_if_enabled().unwrap());
    assert_eq!(stale.write_count(), 1);
}

#[test]
fn planning_follows_the_current_value() {
    let current = Some(COMMAND.to_owned());
    assert_eq!(plan_set(&current, COMMAND, true), AutostartChange::Unchanged);
    assert_eq!(plan_set(&current, COMMAND, false), AutostartChange::Remove);
    assert_eq!(plan_set(&None, COMMAND, true), AutostartChange::Write);
    assert_eq!(plan_set(&None, COMMAND, false), AutostartChange::Unchanged);
    assert_eq!(plan_sync(&None, COMMAND), AutostartChange::Unchanged);
    assert_eq!(plan_sync(&Some("old".to_owned()), COMMAND), AutostartChange::Write);
}

#[test]
fn noop_registry_never_registers_and_set_reports_the_planned_write() {
    let mut manager = AutostartManager::new(NoopAutostartRegistry::new(), COMMAND.to_owned());
    assert!(!manager.is_enabled().unwrap());
    assert!(manager.set(true).unwrap());
    assert!(!manager.is_enabled().unwrap());
    assert!(!manager.set(false).unwrap());
    assert!(!manager.sync_if_enabled().unwrap());
}

#[test]
fn run_value_reads_decide_absent_error_and_buffer_size() {
    assert_eq!(run_key_opened(0), Ok(true));
    assert_eq!(run_key_opened(2), Ok(false));
    assert_eq!(
        run_key_opened(5),
        Err(AutostartError::Registry { operation: "RegOpenKeyExW", status: 5 })
    );
    assert_eq!(run_value_sized(2, 1, 10), Ok(None));
    assert_eq!(run_value_sized(0, 7, 10), Ok(None));
    assert_eq!(run_value_sized(0, 1, 0), Ok(None));
    assert_eq!(run_value_sized(0, 1, 9), Ok(Some(5)));
    assert_eq!(run_value_sized(0, 1, 10), Ok(Some(5)));
    assert_eq!(
        run_value_sized(234, 1, 10),
        Err(AutostartError::Registry { operation: "RegQueryValueExW", status: 234 })
    );
}
