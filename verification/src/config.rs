//! What the program is told to do, and with which settings.

use vstd::prelude::*;
use crate::connect::{begins, is_sftp_scheme, target_of, url_error, url_parts};
use crate::connect::{
    ConnectRequest, ConnectStage, Connecting, Login, SecretKind, Secrets, Target,
};
use crate::jobs::{
    backup_all, backup_volume, cleanup_all, restore_all, restore_volume, start, Ask, Request, Run,
    RunState, Task, VolumeRun,
};
use crate::local::LocalStorage;
use crate::refusal::Refusal;
use crate::retention::{keeps_some, RetentionPolicy};
use crate::schedule::{cron_accepts, cron_error, full_expression, parse_schedule};
use crate::sftp::SftpStorage;
use crate::text::optional_text;
use crate::volumes::is_volume_name;

verus! {

/// Where the volumes are, unless it is said otherwise.
pub const DEFAULT_VOLUMES_ROOT: &'static str = "/volumes";

/// Where local storage is, unless it is said otherwise.
pub const DEFAULT_LOCAL_STORAGE_ROOT: &'static str = "/backups";

/// When backups are made, unless it is said otherwise: daily at 01:00.
pub const DEFAULT_BACKUP_CRON: &'static str = "0 1 * * *";

/// The file of the password, unless it is said otherwise.
pub const DEFAULT_SFTP_PASSWORD_FILE: &'static str = "/run/secrets/SFTP_PASSWORD";

/// The file of the private key, unless it is said otherwise.
pub const DEFAULT_SFTP_PRIVATE_KEY_FILE: &'static str = "/run/secrets/SFTP_PRIVATE_KEY";

/// The file of the private key's passphrase, unless it is said otherwise.
pub const DEFAULT_SFTP_PRIVATE_KEY_PASSPHRASE_FILE: &'static str =
    "/run/secrets/SFTP_PRIVATE_KEY_PASSPHRASE";

/// How many archives the count policy keeps, unless it is said otherwise.
pub const DEFAULT_RETENTION_COUNT: usize = 7;

/// How many archives the size policy keeps at least, unless it is said
/// otherwise.
pub const DEFAULT_RETENTION_MIN_COUNT: usize = 2;

/// How large the archives of a volume may be together under the size policy,
/// unless it is said otherwise.
pub const DEFAULT_RETENTION_MAX_TOTAL_SIZE: &'static str = "10GiB";

/// The kinds of storage.
#[derive(Clone, Copy, Debug, PartialEq, Eq, Structural)]
pub enum StorageDriverKind {
    Local,
    Sftp,
}

/// The kinds of retention policy.
#[derive(Clone, Copy, Debug, PartialEq, Eq, Structural)]
pub enum RetentionPolicyKind {
    Count,
    Size,
}

/// The settings.
#[derive(Debug)]
pub struct Config {
    /// The directory whose subdirectories are the volumes.
    pub volumes_root: Vec<u8>,
    pub storage_driver: StorageDriverKind,
    /// The directory of local storage.
    pub local_storage_root: Vec<u8>,
    /// The address of SFTP storage.
    pub sftp_url: Option<String>,
    pub sftp_password: Option<String>,
    pub sftp_password_file: Vec<u8>,
    pub sftp_private_key: Option<String>,
    pub sftp_private_key_file: Vec<u8>,
    pub sftp_private_key_passphrase: Option<String>,
    pub sftp_private_key_passphrase_file: Vec<u8>,
    pub retention_policy: RetentionPolicyKind,
    /// How many archives the count policy keeps.
    pub retention_count: usize,
    /// How many archives the size policy keeps at least.
    pub retention_min_count: usize,
    /// How many bytes the size policy keeps at most.
    pub retention_max_total_size: u64,
    /// When the scheduler makes backups.
    pub backup_cron: String,
}

/// What to do.
#[derive(Debug)]
pub enum Command {
    /// Back up one volume.
    Backup { volume: String },
    /// Restore one volume, from its newest archive if none is named.
    Restore { volume: String, archive: Option<String> },
    /// Restore every volume, from its newest archive if none is named.
    RestoreAll { archive: Option<String> },
    /// Back up every volume.
    BackupAll,
    /// Apply the retention policy to every volume.
    Cleanup,
    /// Run the scheduler.
    Run,
}

/// Without a command the scheduler is run.
pub fn command_or_default(command: Option<Command>) -> (chosen: Command)
    ensures
        match command {
            Some(command) => chosen == command,
            None => chosen is Run,
        },
{
    match command {
        Some(command) => command,
        None => Command::Run,
    }
}

/// Whether settings are such that a command can work with them: neither policy
/// would keep nothing, and the schedule can be read.
pub open spec fn acceptable(config: Config) -> bool {
    &&& config.retention_count > 0
    &&& config.retention_min_count > 0
    &&& full_expression(config.backup_cron@) matches Some(full) && cron_accepts(full)
}

/// Refuses settings that no command can work with: a policy that would keep
/// nothing, and a schedule that cannot be read.
pub fn validate_config(config: &Config) -> (r: Result<(), Refusal>)
    ensures
        r is Ok <==> acceptable(*config),
        if config.retention_count == 0 {
            r matches Err(Refusal::RetentionCountZero)
        } else if config.retention_min_count == 0 {
            r matches Err(Refusal::RetentionMinCountZero)
        } else {
            match full_expression(config.backup_cron@) {
                None => r matches Err(Refusal::CronFieldCount),
                Some(full) => if cron_accepts(full) {
                    r is Ok
                } else {
                    r matches Err(Refusal::CronSyntax { expression, cause }) && expression@
                        == config.backup_cron@ && cause == cron_error(full)
                },
            }
        },
{
    if config.retention_count == 0 {
        return Err(Refusal::RetentionCountZero);
    }
    if config.retention_min_count == 0 {
        return Err(Refusal::RetentionMinCountZero);
    }
    match parse_schedule(config.backup_cron.as_str()) {
        Ok(_) => Ok(()),
        Err(refusal) => Err(refusal),
    }
}

/// The retention policy that the settings say.
pub open spec fn policy_of(config: Config) -> RetentionPolicy {
    match config.retention_policy {
        RetentionPolicyKind::Count => RetentionPolicy::Count { keep: config.retention_count },
        RetentionPolicyKind::Size => RetentionPolicy::Size {
            min_count: config.retention_min_count,
            max_total_size: config.retention_max_total_size,
        },
    }
}

/// Gives the retention policy that the settings say.
pub fn retention_policy(config: &Config) -> (policy: RetentionPolicy)
    ensures
        policy == policy_of(*config),
{
    match config.retention_policy {
        RetentionPolicyKind::Count => RetentionPolicy::Count { keep: config.retention_count },
        RetentionPolicyKind::Size => RetentionPolicy::Size {
            min_count: config.retention_min_count,
            max_total_size: config.retention_max_total_size,
        },
    }
}

/// Settings that are not refused never let a cleanup remove the newest archive.
pub proof fn law_accepted_settings_keep_some(config: Config)
    requires
        acceptable(config),
    ensures
        keeps_some(policy_of(config)),
{
}

/// A way to storage.
#[derive(Debug)]
pub enum StorageStart {
    /// Local storage is at hand.
    Local(LocalStorage),
    /// SFTP storage has to be reached first.
    Sftp(Connecting, ConnectRequest),
}

/// The login at a server with the secrets that the settings give.
pub open spec fn login_of(target: Target, config: Config) -> Login {
    Login {
        target,
        password: optional_text(config.sftp_password),
        private_key: optional_text(config.sftp_private_key),
        passphrase: optional_text(config.sftp_private_key_passphrase),
        stage: ConnectStage::User,
    }
}

/// Copies an optional text.
fn copy_text(text: &Option<String>) -> (copy: Option<String>)
    ensures
        optional_text(copy) == optional_text(*text),
{
    match text {
        Some(text) => Some(text.clone()),
        None => None,
    }
}

/// Copies a path.
pub(crate) fn copy_path(path: &Vec<u8>) -> (copy: Vec<u8>)
    ensures
        copy@ == path@,
{
    let copy = path.clone();
    assert(copy@ =~= path@);
    copy
}

/// Begins to build the storage that the settings say.
pub fn build_storage(config: &Config) -> (r: Result<StorageStart, Refusal>)
    ensures
        match config.storage_driver {
            StorageDriverKind::Local => r matches Ok(StorageStart::Local(storage))
                && storage.root@ == config.local_storage_root@,
            StorageDriverKind::Sftp => match config.sftp_url {
                None => r matches Err(Refusal::SftpUrlMissing),
                Some(address) => match url_parts(address@) {
                    None => r matches Err(Refusal::SftpUrlSyntax { reason }) && reason == url_error(
                        address@,
                    ),
                    Some(parts) => if !is_sftp_scheme(parts.scheme) {
                        r matches Err(Refusal::SftpUrlScheme)
                    } else if parts.host is None {
                        r matches Err(Refusal::SftpUrlHost)
                    } else {
                        r matches Ok(StorageStart::Sftp(connecting, request)) && begins(
                            login_of(target_of(parts), *config),
                            connecting,
                            request,
                        )
                    },
                },
            },
        },
{
    match config.storage_driver {
        StorageDriverKind::Local => Ok(
            StorageStart::Local(LocalStorage::new(copy_path(&config.local_storage_root))),
        ),
        StorageDriverKind::Sftp => {
            let url = match &config.sftp_url {
                Some(url) => Some(url.as_str()),
                None => None,
            };
            let secrets = Secrets {
                password: copy_text(&config.sftp_password),
                private_key: copy_text(&config.sftp_private_key),
                passphrase: copy_text(&config.sftp_private_key_passphrase),
            };
            match SftpStorage::connect(url, secrets) {
                Ok((connecting, request)) => Ok(StorageStart::Sftp(connecting, request)),
                Err(refusal) => Err(refusal),
            }
        },
    }
}

/// Gives the file of a secret.
pub fn secret_file(config: &Config, kind: SecretKind) -> (path: &[u8])
    ensures
        path@ == match kind {
            SecretKind::Password => config.sftp_password_file@,
            SecretKind::PrivateKey => config.sftp_private_key_file@,
            SecretKind::Passphrase => config.sftp_private_key_passphrase_file@,
        },
{
    match kind {
        SecretKind::Password => config.sftp_password_file.as_slice(),
        SecretKind::PrivateKey => config.sftp_private_key_file.as_slice(),
        SecretKind::Passphrase => config.sftp_private_key_passphrase_file.as_slice(),
    }
}

/// What a command begins.
#[derive(Debug)]
pub enum Begun {
    /// A job on one volume.
    Volume(VolumeRun, Request),
    /// A job on all volumes.
    All(Run, Request),
    /// The scheduler.
    Schedule,
}

/// Whether `r` is the job on one volume, or the refusal of its name.
pub open spec fn begins_volume(
    r: Result<Begun, Refusal>,
    task: Task,
    root: Seq<u8>,
    volume: Seq<char>,
) -> bool {
    if is_volume_name(volume) {
        r matches Ok(Begun::Volume(run, request)) && (run@, request@) == start(task, root, volume)
    } else {
        r matches Err(Refusal::InvalidVolumeName { volume: v }) && v@ == volume
    }
}

/// Whether `r` is the job on all volumes.
pub open spec fn begins_all(r: Result<Begun, Refusal>, task: Task, root: Seq<u8>) -> bool {
    r matches Ok(Begun::All(run, request)) && run@ == RunState::first(root, task) && request@
        == Ask::ReadVolumes
}

/// Begins what a command says.
pub fn begin_command(config: &Config, command: Command) -> (r: Result<Begun, Refusal>)
    ensures
        match command {
            Command::Backup { volume } => begins_volume(
                r,
                Task::Backup,
                config.volumes_root@,
                volume@,
            ),
            Command::Restore { volume, archive } => begins_volume(
                r,
                Task::Restore { archive: optional_text(archive) },
                config.volumes_root@,
                volume@,
            ),
            Command::RestoreAll { archive } => begins_all(
                r,
                Task::Restore { archive: optional_text(archive) },
                config.volumes_root@,
            ),
            Command::BackupAll => begins_all(r, Task::Backup, config.volumes_root@),
            Command::Cleanup => begins_all(
                r,
                Task::Cleanup { policy: policy_of(*config) },
                config.volumes_root@,
            ),
            Command::Run => r matches Ok(Begun::Schedule),
        },
{
    let root = config.volumes_root.as_slice();
    match command {
        Command::Backup { volume } => match backup_volume(root, volume.as_str()) {
            Ok((run, request)) => Ok(Begun::Volume(run, request)),
            Err(refusal) => Err(refusal),
        },
        Command::Restore { volume, archive } => {
            let named = match &archive {
                Some(archive) => Some(archive.as_str()),
                None => None,
            };
            match restore_volume(root, volume.as_str(), named) {
                Ok((run, request)) => Ok(Begun::Volume(run, request)),
                Err(refusal) => Err(refusal),
            }
        },
        Command::RestoreAll { archive } => {
            let (run, request) = restore_all(copy_path(&config.volumes_root), archive);
            Ok(Begun::All(run, request))
        },
        Command::BackupAll => {
            let (run, request) = backup_all(copy_path(&config.volumes_root));
            Ok(Begun::All(run, request))
        },
        Command::Cleanup => {
            let (run, request) = cleanup_all(
                copy_path(&config.volumes_root),
                retention_policy(config),
            );
            Ok(Begun::All(run, request))
        },
        Command::Run => Ok(Begun::Schedule),
    }
}

/// Whether a policy is of the kind that the settings say, with their numbers.
pub open spec fn is_policy_of(policy: RetentionPolicy, config: Config) -> bool {
    match policy {
        RetentionPolicy::Count { keep } => config.retention_policy is Count && keep
            == config.retention_count,
        RetentionPolicy::Size { min_count, max_total_size } => config.retention_policy is Size
            && min_count == config.retention_min_count && max_total_size
            == config.retention_max_total_size,
    }
}

/// The policy is of the kind that the settings say, with their numbers.
pub proof fn law_the_policy_is_that_of_the_settings(config: Config, policy: RetentionPolicy)
    requires
        call_ensures(retention_policy, (&config,), policy),
    ensures
        is_policy_of(policy, config),
{
}

/// Settings are taken exactly where both policies would keep an archive and the
/// schedule can be read, and otherwise refused for the first of these that fails.
pub proof fn law_settings_are_refused_for_the_first_fault(
    config: Config,
    expression: &str,
    r: Result<(), Refusal>,
    schedule: Result<cron::Schedule, Refusal>,
)
    requires
        call_ensures(validate_config, (&config,), r),
        expression@ == config.backup_cron@,
        call_ensures(parse_schedule, (expression,), schedule),
    ensures
        r is Ok <==> config.retention_count > 0 && config.retention_min_count > 0 && schedule
            is Ok,
        r matches Err(refusal) ==> if config.retention_count == 0 {
            refusal is RetentionCountZero
        } else if config.retention_min_count == 0 {
            refusal is RetentionMinCountZero
        } else {
            match schedule->Err_0 {
                Refusal::CronSyntax { expression, cause } => refusal matches Refusal::CronSyntax {
                    expression: e,
                    cause: c,
                } && e@ == expression@ && c == cause,
                other => other is CronFieldCount && refusal is CronFieldCount,
            }
        },
{
}

/// Storage is of the kind that the settings say: local storage in its directory,
/// whatever they say of SFTP, or a connection that is begun with their address and
/// secrets, or refused as that is.
pub proof fn law_storage_is_that_of_the_settings(
    config: Config,
    url: Option<&str>,
    secrets: Secrets,
    r: Result<StorageStart, Refusal>,
    connection: Result<(Connecting, ConnectRequest), Refusal>,
)
    requires
        call_ensures(build_storage, (&config,), r),
        match (url, config.sftp_url) {
            (Some(a), Some(b)) => a@ == b@,
            (None, None) => true,
            _ => false,
        },
        optional_text(secrets.password) == optional_text(config.sftp_password),
        optional_text(secrets.private_key) == optional_text(config.sftp_private_key),
        optional_text(secrets.passphrase) == optional_text(config.sftp_private_key_passphrase),
        call_ensures(SftpStorage::connect, (url, secrets), connection),
    ensures
        config.storage_driver is Local ==> (r matches Ok(StorageStart::Local(storage))
            && storage.root@ == config.local_storage_root@),
        config.storage_driver is Sftp ==> match connection {
            Ok((connecting, request)) => {
                &&& r matches Ok(StorageStart::Sftp(c, q))
                &&& c@ == connecting@
                &&& q@ == request@
            },
            Err(Refusal::SftpUrlMissing) => r matches Err(Refusal::SftpUrlMissing),
            Err(Refusal::SftpUrlSyntax { reason }) => r matches Err(
                Refusal::SftpUrlSyntax { reason: same },
            ) && same == reason,
            Err(Refusal::SftpUrlScheme) => r matches Err(Refusal::SftpUrlScheme),
            Err(Refusal::SftpUrlHost) => r matches Err(Refusal::SftpUrlHost),
            Err(_) => false,
        },
{
}

/// Each secret has its own file.
pub proof fn law_each_secret_has_its_file(config: Config, kind: SecretKind, path: &[u8])
    requires
        call_ensures(secret_file, (&config, kind), path),
    ensures
        kind is Password ==> path@ == config.sftp_password_file@,
        kind is PrivateKey ==> path@ == config.sftp_private_key_file@,
        kind is Passphrase ==> path@ == config.sftp_private_key_passphrase_file@,
{
}

/// A command begins its job on the volumes of the settings: a job on one volume
/// as [`backup_volume`] and [`restore_volume`] begin it, and one on all volumes by
/// reading their directory.
pub proof fn law_a_command_begins_its_job(
    config: Config,
    command: Command,
    root: &[u8],
    name: &str,
    archive: Option<&str>,
    backup: Result<(VolumeRun, Request), Refusal>,
    restore: Result<(VolumeRun, Request), Refusal>,
    r: Result<Begun, Refusal>,
)
    requires
        call_ensures(begin_command, (&config, command), r),
        root@ == config.volumes_root@,
        call_ensures(backup_volume, (root, name), backup),
        call_ensures(restore_volume, (root, name, archive), restore),
    ensures
        command matches Command::Backup { volume } ==> volume@ == name@ ==> match backup {
            Ok((run, request)) => r matches Ok(Begun::Volume(b, q)) && b@ == run@ && q@
                == request@,
            Err(_) => r matches Err(Refusal::InvalidVolumeName { volume: v }) && v@ == name@,
        },
        command matches Command::Restore { volume, archive: a } ==> volume@ == name@ && (
        match (a, archive) {
            (Some(x), Some(y)) => x@ == y@,
            (None, None) => true,
            _ => false,
        }) ==> match restore {
            Ok((run, request)) => r matches Ok(Begun::Volume(b, q)) && b@ == run@ && q@
                == request@,
            Err(_) => r matches Err(Refusal::InvalidVolumeName { volume: v }) && v@ == name@,
        },
        command is Run ==> r matches Ok(Begun::Schedule),
        command is BackupAll || command is RestoreAll || command is Cleanup ==> {
            &&& r matches Ok(Begun::All(run, request))
            &&& request is ReadVolumes
            &&& run@.root == config.volumes_root@
            &&& run@.current is None
            &&& run@.rest.len() == 0
            &&& command is BackupAll ==> run@.task is Backup
            &&& command matches Command::RestoreAll { archive: a } ==> {
                &&& run@.task matches Task::Restore { archive: b }
                &&& match a {
                    Some(a) => b == Some(a@),
                    None => b is None,
                }
            }
            &&& command is Cleanup ==> (run@.task matches Task::Cleanup { policy } && is_policy_of(
                policy,
                config,
            ))
        },
{
}

/// Without a command the scheduler runs, and a command that was given is taken.
pub proof fn law_the_scheduler_is_the_default(command: Option<Command>, chosen: Command)
    requires
        call_ensures(command_or_default, (command,), chosen),
    ensures
        command is None ==> chosen is Run,
        command matches Some(given) ==> chosen == given,
{
}

/// What holds where nothing is said: the volumes and local storage lie in their
/// directories at the root, secrets in the directory of secrets, seven archives
/// are kept by count, and by size at least two.
pub proof fn law_the_defaults()
    ensures
        DEFAULT_VOLUMES_ROOT@ == "/volumes"@,
        DEFAULT_LOCAL_STORAGE_ROOT@ == "/backups"@,
        DEFAULT_BACKUP_CRON@ == "0 1 * * *"@,
        DEFAULT_SFTP_PASSWORD_FILE@ == "/run/secrets/SFTP_PASSWORD"@,
        DEFAULT_SFTP_PRIVATE_KEY_FILE@ == "/run/secrets/SFTP_PRIVATE_KEY"@,
        DEFAULT_SFTP_PRIVATE_KEY_PASSPHRASE_FILE@ == "/run/secrets/SFTP_PRIVATE_KEY_PASSPHRASE"@,
        DEFAULT_RETENTION_COUNT == 7,
        DEFAULT_RETENTION_MIN_COUNT == 2,
        DEFAULT_RETENTION_MAX_TOTAL_SIZE@ == "10GiB"@,
{
}

} // verus!
