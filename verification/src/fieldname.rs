//! Parse (known) field names of journald-entries.
//!
//! See: [systemd.journal-fields](https://www.freedesktop.org/software/systemd/man/254/systemd.journal-fields.html)

use std::borrow::Cow;
use vstd::prelude::*;

verus! {

/// The number of well-known field names.
pub const KNOWN_NAMES: usize = 70;

/// The field names that journald itself documents.
#[derive(Clone, Copy, Debug, PartialEq, Eq, Structural)]
pub enum Known {
    Message,
    MessageId,
    Priority,
    CodeFile,
    CodeLine,
    CodeFunc,
    Errno,
    InvocationId,
    UserInvocationId,
    SyslogFacility,
    SyslogIdentifier,
    SyslogPid,
    SyslogTimestamp,
    SyslogRaw,
    Documentation,
    Tid,
    Unit,
    UserUnit,
    _Pid,
    _Uid,
    _Gid,
    _Comm,
    _Exe,
    _Cmdline,
    _CapEffective,
    _AuditSession,
    _AuditLoginuid,
    _SystemdCgroup,
    _SystemdSlice,
    _SystemdUnit,
    _SystemdUserUnit,
    _SystemdUserSlice,
    _SystemdSession,
    _SystemdOwnerUid,
    _SelinuxContext,
    _SourceRealtimeTimestamp,
    _BootId,
    _MachineId,
    _SystemdInvocationId,
    _Hostname,
    _Transport,
    _StreamId,
    _LineBreak,
    _Namespace,
    _RuntimeScope,
    _KernelDevice,
    _KernelSubsystem,
    _UdevSysname,
    _UdevDevnode,
    _UdevDevlink,
    CoredumpUnit,
    CoredumpUserUnit,
    ObjectPid,
    ObjectUid,
    ObjectGid,
    ObjectComm,
    ObjectExe,
    ObjectCmdline,
    ObjectAuditSession,
    ObjectAuditLoginuid,
    ObjectSystemdCgroup,
    ObjectSystemdSession,
    ObjectSystemdOwnerUid,
    ObjectSystemdUnit,
    ObjectSystemdUserUnit,
    __Cursor,
    __RealtimeTimestamp,
    __MonotonicTimestamp,
    __Seqnum,
    __SeqnumId,
}

/// The bytes of an ASCII text, one for each character.
pub open spec fn ascii(text: Seq<char>) -> Seq<u8> {
    Seq::new(text.len(), |i: int| text[i] as u8)
}

fn bytes_of(text: &'static str) -> (r: &'static [u8])
    requires
        text.is_ascii(),
    ensures
        r@ == ascii(text@),
{
    proof {
        vstd::string::is_ascii_spec_bytes(text);
    }
    text.as_bytes()
}

/// Whether two byte strings are equal.
pub fn same_bytes(a: &[u8], b: &[u8]) -> (r: bool)
    ensures
        r == (a@ == b@),
{
    if a.len() != b.len() {
        return false;
    }
    let mut i: usize = 0;
    while i < a.len()
        invariant
            i <= a@.len(),
            a@.len() == b@.len(),
            a@.subrange(0, i as int) == b@.subrange(0, i as int),
        decreases a@.len() - i,
    {
        if a[i] != b[i] {
            assert(a@[i as int] != b@[i as int]);
            return false;
        }
        i = i + 1;
        assert(a@.subrange(0, i as int) =~= a@.subrange(0, i - 1).push(a@[i - 1]));
        assert(b@.subrange(0, i as int) =~= b@.subrange(0, i - 1).push(b@[i - 1]));
    }
    assert(a@ =~= a@.subrange(0, i as int));
    assert(b@ =~= b@.subrange(0, i as int));
    true
}

impl Known {
    /// The name as it stands in a journal entry.
    pub open spec fn name(self) -> Seq<char> {
        match self {
            Known::Message => "MESSAGE"@,
            Known::MessageId => "MESSAGE_ID"@,
            Known::Priority => "PRIORITY"@,
            Known::CodeFile => "CODE_FILE"@,
            Known::CodeLine => "CODE_LINE"@,
            Known::CodeFunc => "CODE_FUNC"@,
            Known::Errno => "ERRNO"@,
            Known::InvocationId => "INVOCATION_ID"@,
            Known::UserInvocationId => "USER_INVOCATION_ID"@,
            Known::SyslogFacility => "SYSLOG_FACILITY"@,
            Known::SyslogIdentifier => "SYSLOG_IDENTIFIER"@,
            Known::SyslogPid => "SYSLOG_PID"@,
            Known::SyslogTimestamp => "SYSLOG_TIMESTAMP"@,
            Known::SyslogRaw => "SYSLOG_RAW"@,
            Known::Documentation => "DOCUMENTATION"@,
            Known::Tid => "TID"@,
            Known::Unit => "UNIT"@,
            Known::UserUnit => "USER_UNIT"@,
            Known::_Pid => "_PID"@,
            Known::_Uid => "_UID"@,
            Known::_Gid => "_GID"@,
            Known::_Comm => "_COMM"@,
            Known::_Exe => "_EXE"@,
            Known::_Cmdline => "_CMDLINE"@,
            Known::_CapEffective => "_CAP_EFFECTIVE"@,
            Known::_AuditSession => "_AUDIT_SESSION"@,
            Known::_AuditLoginuid => "_AUDIT_LOGINUID"@,
            Known::_SystemdCgroup => "_SYSTEMD_CGROUP"@,
            Known::_SystemdSlice => "_SYSTEMD_SLICE"@,
            Known::_SystemdUnit => "_SYSTEMD_UNIT"@,
            Known::_SystemdUserUnit => "_SYSTEMD_USER_UNIT"@,
            Known::_SystemdUserSlice => "_SYSTEMD_USER_SLICE"@,
            Known::_SystemdSession => "_SYSTEMD_SESSION"@,
            Known::_SystemdOwnerUid => "_SYSTEMD_OWNER_UID"@,
            Known::_SelinuxContext => "_SELINUX_CONTEXT"@,
            Known::_SourceRealtimeTimestamp => "_SOURCE_REALTIME_TIMESTAMP"@,
            Known::_BootId => "_BOOT_ID"@,
            Known::_MachineId => "_MACHINE_ID"@,
            Known::_SystemdInvocationId => "_SYSTEMD_INVOCATION_ID"@,
            Known::_Hostname => "_HOSTNAME"@,
            Known::_Transport => "_TRANSPORT"@,
            Known::_StreamId => "_STREAM_ID"@,
            Known::_LineBreak => "_LINE_BREAK"@,
            Known::_Namespace => "_NAMESPACE"@,
            Known::_RuntimeScope => "_RUNTIME_SCOPE"@,
            Known::_KernelDevice => "_KERNEL_DEVICE"@,
            Known::_KernelSubsystem => "_KERNEL_SUBSYSTEM"@,
            Known::_UdevSysname => "_UDEV_SYSNAME"@,
            Known::_UdevDevnode => "_UDEV_DEVNODE"@,
            Known::_UdevDevlink => "_UDEV_DEVLINK"@,
            Known::CoredumpUnit => "COREDUMP_UNIT"@,
            Known::CoredumpUserUnit => "COREDUMP_USER_UNIT"@,
            Known::ObjectPid => "OBJECT_PID"@,
            Known::ObjectUid => "OBJECT_UID"@,
            Known::ObjectGid => "OBJECT_GID"@,
            Known::ObjectComm => "OBJECT_COMM"@,
            Known::ObjectExe => "OBJECT_EXE"@,
            Known::ObjectCmdline => "OBJECT_CMDLINE"@,
            Known::ObjectAuditSession => "OBJECT_AUDIT_SESSION"@,
            Known::ObjectAuditLoginuid => "OBJECT_AUDIT_LOGINUID"@,
            Known::ObjectSystemdCgroup => "OBJECT_SYSTEMD_CGROUP"@,
            Known::ObjectSystemdSession => "OBJECT_SYSTEMD_SESSION"@,
            Known::ObjectSystemdOwnerUid => "OBJECT_SYSTEMD_OWNER_UID"@,
            Known::ObjectSystemdUnit => "OBJECT_SYSTEMD_UNIT"@,
            Known::ObjectSystemdUserUnit => "OBJECT_SYSTEMD_USER_UNIT"@,
            Known::__Cursor => "__CURSOR"@,
            Known::__RealtimeTimestamp => "__REALTIME_TIMESTAMP"@,
            Known::__MonotonicTimestamp => "__MONOTONIC_TIMESTAMP"@,
            Known::__Seqnum => "__SEQNUM"@,
            Known::__SeqnumId => "__SEQNUM_ID"@,
        }
    }

    /// The place of the name in the list of the well-known names.
    pub open spec fn index(self) -> nat {
        match self {
            Known::Message => 0,
            Known::MessageId => 1,
            Known::Priority => 2,
            Known::CodeFile => 3,
            Known::CodeLine => 4,
            Known::CodeFunc => 5,
            Known::Errno => 6,
            Known::InvocationId => 7,
            Known::UserInvocationId => 8,
            Known::SyslogFacility => 9,
            Known::SyslogIdentifier => 10,
            Known::SyslogPid => 11,
            Known::SyslogTimestamp => 12,
            Known::SyslogRaw => 13,
            Known::Documentation => 14,
            Known::Tid => 15,
            Known::Unit => 16,
            Known::UserUnit => 17,
            Known::_Pid => 18,
            Known::_Uid => 19,
            Known::_Gid => 20,
            Known::_Comm => 21,
            Known::_Exe => 22,
            Known::_Cmdline => 23,
            Known::_CapEffective => 24,
            Known::_AuditSession => 25,
            Known::_AuditLoginuid => 26,
            Known::_SystemdCgroup => 27,
            Known::_SystemdSlice => 28,
            Known::_SystemdUnit => 29,
            Known::_SystemdUserUnit => 30,
            Known::_SystemdUserSlice => 31,
            Known::_SystemdSession => 32,
            Known::_SystemdOwnerUid => 33,
            Known::_SelinuxContext => 34,
            Known::_SourceRealtimeTimestamp => 35,
            Known::_BootId => 36,
            Known::_MachineId => 37,
            Known::_SystemdInvocationId => 38,
            Known::_Hostname => 39,
            Known::_Transport => 40,
            Known::_StreamId => 41,
            Known::_LineBreak => 42,
            Known::_Namespace => 43,
            Known::_RuntimeScope => 44,
            Known::_KernelDevice => 45,
            Known::_KernelSubsystem => 46,
            Known::_UdevSysname => 47,
            Known::_UdevDevnode => 48,
            Known::_UdevDevlink => 49,
            Known::CoredumpUnit => 50,
            Known::CoredumpUserUnit => 51,
            Known::ObjectPid => 52,
            Known::ObjectUid => 53,
            Known::ObjectGid => 54,
            Known::ObjectComm => 55,
            Known::ObjectExe => 56,
            Known::ObjectCmdline => 57,
            Known::ObjectAuditSession => 58,
            Known::ObjectAuditLoginuid => 59,
            Known::ObjectSystemdCgroup => 60,
            Known::ObjectSystemdSession => 61,
            Known::ObjectSystemdOwnerUid => 62,
            Known::ObjectSystemdUnit => 63,
            Known::ObjectSystemdUserUnit => 64,
            Known::__Cursor => 65,
            Known::__RealtimeTimestamp => 66,
            Known::__MonotonicTimestamp => 67,
            Known::__Seqnum => 68,
            Known::__SeqnumId => 69,
        }
    }

    /// The well-known name at a place of the list.
    pub open spec fn at(i: usize) -> Known {
        match i {
            0 => Known::Message,
            1 => Known::MessageId,
            2 => Known::Priority,
            3 => Known::CodeFile,
            4 => Known::CodeLine,
            5 => Known::CodeFunc,
            6 => Known::Errno,
            7 => Known::InvocationId,
            8 => Known::UserInvocationId,
            9 => Known::SyslogFacility,
            10 => Known::SyslogIdentifier,
            11 => Known::SyslogPid,
            12 => Known::SyslogTimestamp,
            13 => Known::SyslogRaw,
            14 => Known::Documentation,
            15 => Known::Tid,
            16 => Known::Unit,
            17 => Known::UserUnit,
            18 => Known::_Pid,
            19 => Known::_Uid,
            20 => Known::_Gid,
            21 => Known::_Comm,
            22 => Known::_Exe,
            23 => Known::_Cmdline,
            24 => Known::_CapEffective,
            25 => Known::_AuditSession,
            26 => Known::_AuditLoginuid,
            27 => Known::_SystemdCgroup,
            28 => Known::_SystemdSlice,
            29 => Known::_SystemdUnit,
            30 => Known::_SystemdUserUnit,
            31 => Known::_SystemdUserSlice,
            32 => Known::_SystemdSession,
            33 => Known::_SystemdOwnerUid,
            34 => Known::_SelinuxContext,
            35 => Known::_SourceRealtimeTimestamp,
            36 => Known::_BootId,
            37 => Known::_MachineId,
            38 => Known::_SystemdInvocationId,
            39 => Known::_Hostname,
            40 => Known::_Transport,
            41 => Known::_StreamId,
            42 => Known::_LineBreak,
            43 => Known::_Namespace,
            44 => Known::_RuntimeScope,
            45 => Known::_KernelDevice,
            46 => Known::_KernelSubsystem,
            47 => Known::_UdevSysname,
            48 => Known::_UdevDevnode,
            49 => Known::_UdevDevlink,
            50 => Known::CoredumpUnit,
            51 => Known::CoredumpUserUnit,
            52 => Known::ObjectPid,
            53 => Known::ObjectUid,
            54 => Known::ObjectGid,
            55 => Known::ObjectComm,
            56 => Known::ObjectExe,
            57 => Known::ObjectCmdline,
            58 => Known::ObjectAuditSession,
            59 => Known::ObjectAuditLoginuid,
            60 => Known::ObjectSystemdCgroup,
            61 => Known::ObjectSystemdSession,
            62 => Known::ObjectSystemdOwnerUid,
            63 => Known::ObjectSystemdUnit,
            64 => Known::ObjectSystemdUserUnit,
            65 => Known::__Cursor,
            66 => Known::__RealtimeTimestamp,
            67 => Known::__MonotonicTimestamp,
            68 => Known::__Seqnum,
            _ => Known::__SeqnumId,
        }
    }

    /// The first well-known name from place `i` of the list on that these
    /// bytes spell, if they spell one.
    pub open spec fn spelled_from(bytes: Seq<u8>, i: nat) -> Option<Known>
        decreases KNOWN_NAMES - i,
    {
        if i >= KNOWN_NAMES {
            None
        } else if ascii(Known::at(i as usize).name()) == bytes {
            Some(Known::at(i as usize))
        } else {
            Known::spelled_from(bytes, i + 1)
        }
    }

    /// The well-known name that these bytes spell, if they spell one.
    pub open spec fn spelled(bytes: Seq<u8>) -> Option<Known> {
        Known::spelled_from(bytes, 0)
    }

    /// What `spelled_from` finds spells the bytes, and where it finds
    /// nothing, no name from that place on does.
    pub proof fn lemma_spelled_from(bytes: Seq<u8>, i: nat)
        ensures
            match Known::spelled_from(bytes, i) {
                Some(k) => ascii(k.name()) == bytes,
                None => forall|k: Known| k.index() >= i ==> ascii(k.name()) != bytes,
            },
        decreases KNOWN_NAMES - i,
    {
        if i < KNOWN_NAMES {
            Known::lemma_spelled_from(bytes, i + 1);
            if ascii(Known::at(i as usize).name()) != bytes && Known::spelled_from(bytes, i) is None {
                assert forall|k: Known| k.index() >= i implies ascii(k.name()) != bytes by {
                    if k.index() == i {
                        assert(Known::at(k.index() as usize) == k);
                    }
                }
            }
        } else {
            assert forall|k: Known| k.index() >= i implies ascii(k.name()) != bytes by {
                assert(k.index() < KNOWN_NAMES);
            }
        }
    }

    /// The name as the bytes that stand in a journal entry.
    pub fn as_bytes(&self) -> (r: &'static [u8])
        ensures
            r@ == ascii(self.name()),
    {
        match self {
            Known::Message => {
                proof {
                    reveal_strlit("MESSAGE");
                }
                bytes_of("MESSAGE")
            },
            Known::MessageId => {
                proof {
                    reveal_strlit("MESSAGE_ID");
                }
                bytes_of("MESSAGE_ID")
            },
            Known::Priority => {
                proof {
                    reveal_strlit("PRIORITY");
                }
                bytes_of("PRIORITY")
            },
            Known::CodeFile => {
                proof {
                    reveal_strlit("CODE_FILE");
                }
                bytes_of("CODE_FILE")
            },
            Known::CodeLine => {
                proof {
                    reveal_strlit("CODE_LINE");
                }
                bytes_of("CODE_LINE")
            },
            Known::CodeFunc => {
                proof {
                    reveal_strlit("CODE_FUNC");
                }
                bytes_of("CODE_FUNC")
            },
            Known::Errno => {
                proof {
                    reveal_strlit("ERRNO");
                }
                bytes_of("ERRNO")
            },
            Known::InvocationId => {
                proof {
                    reveal_strlit("INVOCATION_ID");
                }
                bytes_of("INVOCATION_ID")
            },
            Known::UserInvocationId => {
                proof {
                    reveal_strlit("USER_INVOCATION_ID");
                }
                bytes_of("USER_INVOCATION_ID")
            },
            Known::SyslogFacility => {
                proof {
                    reveal_strlit("SYSLOG_FACILITY");
                }
                bytes_of("SYSLOG_FACILITY")
            },
            Known::SyslogIdentifier => {
                proof {
                    reveal_strlit("SYSLOG_IDENTIFIER");
                }
                bytes_of("SYSLOG_IDENTIFIER")
            },
            Known::SyslogPid => {
                proof {
                    reveal_strlit("SYSLOG_PID");
                }
                bytes_of("SYSLOG_PID")
            },
            Known::SyslogTimestamp => {
                proof {
                    reveal_strlit("SYSLOG_TIMESTAMP");
                }
                bytes_of("SYSLOG_TIMESTAMP")
            },
            Known::SyslogRaw => {
                proof {
                    reveal_strlit("SYSLOG_RAW");
                }
                bytes_of("SYSLOG_RAW")
            },
            Known::Documentation => {
                proof {
                    reveal_strlit("DOCUMENTATION");
                }
                bytes_of("DOCUMENTATION")
            },
            Known::Tid => {
                proof {
                    reveal_strlit("TID");
                }
                bytes_of("TID")
            },
            Known::Unit => {
                proof {
                    reveal_strlit("UNIT");
                }
                bytes_of("UNIT")
            },
            Known::UserUnit => {
                proof {
                    reveal_strlit("USER_UNIT");
                }
                bytes_of("USER_UNIT")
            },
            Known::_Pid => {
                proof {
                    reveal_strlit("_PID");
                }
                bytes_of("_PID")
            },
            Known::_Uid => {
                proof {
                    reveal_strlit("_UID");
                }
                bytes_of("_UID")
            },
            Known::_Gid => {
                proof {
                    reveal_strlit("_GID");
                }
                bytes_of("_GID")
            },
            Known::_Comm => {
                proof {
                    reveal_strlit("_COMM");
                }
                bytes_of("_COMM")
            },
            Known::_Exe => {
                proof {
                    reveal_strlit("_EXE");
                }
                bytes_of("_EXE")
            },
            Known::_Cmdline => {
                proof {
                    reveal_strlit("_CMDLINE");
                }
                bytes_of("_CMDLINE")
            },
            Known::_CapEffective => {
                proof {
                    reveal_strlit("_CAP_EFFECTIVE");
                }
                bytes_of("_CAP_EFFECTIVE")
            },
            Known::_AuditSession => {
                proof {
                    reveal_strlit("_AUDIT_SESSION");
                }
                bytes_of("_AUDIT_SESSION")
            },
            Known::_AuditLoginuid => {
                proof {
                    reveal_strlit("_AUDIT_LOGINUID");
                }
                bytes_of("_AUDIT_LOGINUID")
            },
            Known::_SystemdCgroup => {
                proof {
                    reveal_strlit("_SYSTEMD_CGROUP");
                }
                bytes_of("_SYSTEMD_CGROUP")
            },
            Known::_SystemdSlice => {
                proof {
                    reveal_strlit("_SYSTEMD_SLICE");
                }
                bytes_of("_SYSTEMD_SLICE")
            },
            Known::_SystemdUnit => {
                proof {
                    reveal_strlit("_SYSTEMD_UNIT");
                }
                bytes_of("_SYSTEMD_UNIT")
            },
            Known::_SystemdUserUnit => {
                proof {
                    reveal_strlit("_SYSTEMD_USER_UNIT");
                }
                bytes_of("_SYSTEMD_USER_UNIT")
            },
            Known::_SystemdUserSlice => {
                proof {
                    reveal_strlit("_SYSTEMD_USER_SLICE");
                }
                bytes_of("_SYSTEMD_USER_SLICE")
            },
            Known::_SystemdSession => {
                proof {
                    reveal_strlit("_SYSTEMD_SESSION");
                }
                bytes_of("_SYSTEMD_SESSION")
            },
            Known::_SystemdOwnerUid => {
                proof {
                    reveal_strlit("_SYSTEMD_OWNER_UID");
                }
                bytes_of("_SYSTEMD_OWNER_UID")
            },
            Known::_SelinuxContext => {
                proof {
                    reveal_strlit("_SELINUX_CONTEXT");
                }
                bytes_of("_SELINUX_CONTEXT")
            },
            Known::_SourceRealtimeTimestamp => {
                proof {
                    reveal_strlit("_SOURCE_REALTIME_TIMESTAMP");
                }
                bytes_of("_SOURCE_REALTIME_TIMESTAMP")
            },
            Known::_BootId => {
                proof {
                    reveal_strlit("_BOOT_ID");
                }
                bytes_of("_BOOT_ID")
            },
            Known::_MachineId => {
                proof {
                    reveal_strlit("_MACHINE_ID");
                }
                bytes_of("_MACHINE_ID")
            },
            Known::_SystemdInvocationId => {
                proof {
                    reveal_strlit("_SYSTEMD_INVOCATION_ID");
                }
                bytes_of("_SYSTEMD_INVOCATION_ID")
            },
            Known::_Hostname => {
                proof {
                    reveal_strlit("_HOSTNAME");
                }
                bytes_of("_HOSTNAME")
            },
            Known::_Transport => {
                proof {
                    reveal_strlit("_TRANSPORT");
                }
                bytes_of("_TRANSPORT")
            },
            Known::_StreamId => {
                proof {
                    reveal_strlit("_STREAM_ID");
                }
                bytes_of("_STREAM_ID")
            },
            Known::_LineBreak => {
                proof {
                    reveal_strlit("_LINE_BREAK");
                }
                bytes_of("_LINE_BREAK")
            },
            Known::_Namespace => {
                proof {
                    reveal_strlit("_NAMESPACE");
                }
                bytes_of("_NAMESPACE")
            },
            Known::_RuntimeScope => {
                proof {
                    reveal_strlit("_RUNTIME_SCOPE");
                }
                bytes_of("_RUNTIME_SCOPE")
            },
            Known::_KernelDevice => {
                proof {
                    reveal_strlit("_KERNEL_DEVICE");
                }
                bytes_of("_KERNEL_DEVICE")
            },
            Known::_KernelSubsystem => {
                proof {
                    reveal_strlit("_KERNEL_SUBSYSTEM");
                }
                bytes_of("_KERNEL_SUBSYSTEM")
            },
            Known::_UdevSysname => {
                proof {
                    reveal_strlit("_UDEV_SYSNAME");
                }
                bytes_of("_UDEV_SYSNAME")
            },
            Known::_UdevDevnode => {
                proof {
                    reveal_strlit("_UDEV_DEVNODE");
                }
                bytes_of("_UDEV_DEVNODE")
            },
            Known::_UdevDevlink => {
                proof {
                    reveal_strlit("_UDEV_DEVLINK");
                }
                bytes_of("_UDEV_DEVLINK")
            },
            Known::CoredumpUnit => {
                proof {
                    reveal_strlit("COREDUMP_UNIT");
                }
                bytes_of("COREDUMP_UNIT")
            },
            Known::CoredumpUserUnit => {
                proof {
                    reveal_strlit("COREDUMP_USER_UNIT");
                }
                bytes_of("COREDUMP_USER_UNIT")
            },
            Known::ObjectPid => {
                proof {
                    reveal_strlit("OBJECT_PID");
                }
                bytes_of("OBJECT_PID")
            },
            Known::ObjectUid => {
                proof {
                    reveal_strlit("OBJECT_UID");
                }
                bytes_of("OBJECT_UID")
            },
            Known::ObjectGid => {
                proof {
                    reveal_strlit("OBJECT_GID");
                }
                bytes_of("OBJECT_GID")
            },
            Known::ObjectComm => {
                proof {
                    reveal_strlit("OBJECT_COMM");
                }
                bytes_of("OBJECT_COMM")
            },
            Known::ObjectExe => {
                proof {
                    reveal_strlit("OBJECT_EXE");
                }
                bytes_of("OBJECT_EXE")
            },
            Known::ObjectCmdline => {
                proof {
                    reveal_strlit("OBJECT_CMDLINE");
                }
                bytes_of("OBJECT_CMDLINE")
            },
            Known::ObjectAuditSession => {
                proof {
                    reveal_strlit("OBJECT_AUDIT_SESSION");
                }
                bytes_of("OBJECT_AUDIT_SESSION")
            },
            Known::ObjectAuditLoginuid => {
                proof {
                    reveal_strlit("OBJECT_AUDIT_LOGINUID");
                }
                bytes_of("OBJECT_AUDIT_LOGINUID")
            },
            Known::ObjectSystemdCgroup => {
                proof {
                    reveal_strlit("OBJECT_SYSTEMD_CGROUP");
                }
                bytes_of("OBJECT_SYSTEMD_CGROUP")
            },
            Known::ObjectSystemdSession => {
                proof {
                    reveal_strlit("OBJECT_SYSTEMD_SESSION");
                }
                bytes_of("OBJECT_SYSTEMD_SESSION")
            },
            Known::ObjectSystemdOwnerUid => {
                proof {
                    reveal_strlit("OBJECT_SYSTEMD_OWNER_UID");
                }
                bytes_of("OBJECT_SYSTEMD_OWNER_UID")
            },
            Known::ObjectSystemdUnit => {
                proof {
                    reveal_strlit("OBJECT_SYSTEMD_UNIT");
                }
                bytes_of("OBJECT_SYSTEMD_UNIT")
            },
            Known::ObjectSystemdUserUnit => {
                proof {
                    reveal_strlit("OBJECT_SYSTEMD_USER_UNIT");
                }
                bytes_of("OBJECT_SYSTEMD_USER_UNIT")
            },
            Known::__Cursor => {
                proof {
                    reveal_strlit("__CURSOR");
                }
                bytes_of("__CURSOR")
            },
            Known::__RealtimeTimestamp => {
                proof {
                    reveal_strlit("__REALTIME_TIMESTAMP");
                }
                bytes_of("__REALTIME_TIMESTAMP")
            },
            Known::__MonotonicTimestamp => {
                proof {
                    reveal_strlit("__MONOTONIC_TIMESTAMP");
                }
                bytes_of("__MONOTONIC_TIMESTAMP")
            },
            Known::__Seqnum => {
                proof {
                    reveal_strlit("__SEQNUM");
                }
                bytes_of("__SEQNUM")
            },
            Known::__SeqnumId => {
                proof {
                    reveal_strlit("__SEQNUM_ID");
                }
                bytes_of("__SEQNUM_ID")
            },
        }
    }

    /// The well-known name at a place of the list, if there is one.
    pub fn nth(i: usize) -> (r: Option<Known>)
        ensures
            i < KNOWN_NAMES ==> r == Some(Known::at(i)),
            i >= KNOWN_NAMES ==> r is None,
    {
        match i {
            0 => Some(Known::Message),
            1 => Some(Known::MessageId),
            2 => Some(Known::Priority),
            3 => Some(Known::CodeFile),
            4 => Some(Known::CodeLine),
            5 => Some(Known::CodeFunc),
            6 => Some(Known::Errno),
            7 => Some(Known::InvocationId),
            8 => Some(Known::UserInvocationId),
            9 => Some(Known::SyslogFacility),
            10 => Some(Known::SyslogIdentifier),
            11 => Some(Known::SyslogPid),
            12 => Some(Known::SyslogTimestamp),
            13 => Some(Known::SyslogRaw),
            14 => Some(Known::Documentation),
            15 => Some(Known::Tid),
            16 => Some(Known::Unit),
            17 => Some(Known::UserUnit),
            18 => Some(Known::_Pid),
            19 => Some(Known::_Uid),
            20 => Some(Known::_Gid),
            21 => Some(Known::_Comm),
            22 => Some(Known::_Exe),
            23 => Some(Known::_Cmdline),
            24 => Some(Known::_CapEffective),
            25 => Some(Known::_AuditSession),
            26 => Some(Known::_AuditLoginuid),
            27 => Some(Known::_SystemdCgroup),
            28 => Some(Known::_SystemdSlice),
            29 => Some(Known::_SystemdUnit),
            30 => Some(Known::_SystemdUserUnit),
            31 => Some(Known::_SystemdUserSlice),
            32 => Some(Known::_SystemdSession),
            33 => Some(Known::_SystemdOwnerUid),
            34 => Some(Known::_SelinuxContext),
            35 => Some(Known::_SourceRealtimeTimestamp),
            36 => Some(Known::_BootId),
            37 => Some(Known::_MachineId),
            38 => Some(Known::_SystemdInvocationId),
            39 => Some(Known::_Hostname),
            40 => Some(Known::_Transport),
            41 => Some(Known::_StreamId),
            42 => Some(Known::_LineBreak),
            43 => Some(Known::_Namespace),
            44 => Some(Known::_RuntimeScope),
            45 => Some(Known::_KernelDevice),
            46 => Some(Known::_KernelSubsystem),
            47 => Some(Known::_UdevSysname),
            48 => Some(Known::_UdevDevnode),
            49 => Some(Known::_UdevDevlink),
            50 => Some(Known::CoredumpUnit),
            51 => Some(Known::CoredumpUserUnit),
            52 => Some(Known::ObjectPid),
            53 => Some(Known::ObjectUid),
            54 => Some(Known::ObjectGid),
            55 => Some(Known::ObjectComm),
            56 => Some(Known::ObjectExe),
            57 => Some(Known::ObjectCmdline),
            58 => Some(Known::ObjectAuditSession),
            59 => Some(Known::ObjectAuditLoginuid),
            60 => Some(Known::ObjectSystemdCgroup),
            61 => Some(Known::ObjectSystemdSession),
            62 => Some(Known::ObjectSystemdOwnerUid),
            63 => Some(Known::ObjectSystemdUnit),
            64 => Some(Known::ObjectSystemdUserUnit),
            65 => Some(Known::__Cursor),
            66 => Some(Known::__RealtimeTimestamp),
            67 => Some(Known::__MonotonicTimestamp),
            68 => Some(Known::__Seqnum),
            69 => Some(Known::__SeqnumId),
            _ => None,
        }
    }

    /// The well-known name that these bytes spell, if they spell one.
    pub fn lookup(value: &[u8]) -> (r: Option<Known>)
        ensures
            r == Known::spelled(value@),
            match r {
                Some(k) => value@ == ascii(k.name()),
                None => forall|k: Known| value@ != ascii(k.name()),
            },
    {
        proof {
            Known::lemma_spelled_from(value@, 0);
        }
        let mut i: usize = 0;
        while i < KNOWN_NAMES
            invariant
                i <= KNOWN_NAMES,
                Known::spelled_from(value@, i as nat) == Known::spelled(value@),
            decreases KNOWN_NAMES - i,
        {
            match Known::nth(i) {
                Some(k) => {
                    if same_bytes(k.as_bytes(), value) {
                        return Some(k);
                    }
                },
                None => {},
            }
            i = i + 1;
        }
        None
    }
}

/// The name of a field: one of the well-known names, or any other bytes.
#[derive(Debug, PartialEq, Eq)]
pub enum Fieldname<'a> {
    Known(Known),
    Unknown(Cow<'a, [u8]>),
}

impl<'a> View for Fieldname<'a> {
    type V = Seq<u8>;

    /// The bytes of the name.
    open spec fn view(&self) -> Seq<u8> {
        match self {
            Fieldname::Known(k) => ascii(k.name()),
            Fieldname::Unknown(bytes) => bytes@,
        }
    }
}

impl<'a> Clone for Fieldname<'a> {
    /// The same name; bytes that were borrowed are copied.
    fn clone(&self) -> (r: Fieldname<'a>)
        ensures
            r@ == self@,
            r.known() == self.known(),
    {
        match self {
            Fieldname::Unknown(Cow::Borrowed(s)) => Fieldname::Unknown(
                Cow::Owned(vstd::slice::slice_to_vec(s)),
            ),
            Fieldname::Unknown(Cow::Owned(s)) => Fieldname::Unknown(
                Cow::Owned(vstd::slice::slice_to_vec(s.as_slice())),
            ),
            Fieldname::Known(k) => Fieldname::Known(*k),
        }
    }
}

impl<'a> Fieldname<'a> {
    /// The name is one of the well-known names, and which.
    pub open spec fn known(&self) -> Option<Known> {
        match self {
            Fieldname::Known(k) => Some(*k),
            Fieldname::Unknown(_) => None,
        }
    }

    /// The same name with bytes of its own.
    pub fn to_owned(&self) -> (r: Fieldname<'static>)
        ensures
            r@ == self@,
            r.known() == self.known(),
            r matches Fieldname::Unknown(bytes) ==> bytes is Owned,
    {
        match self {
            Fieldname::Unknown(Cow::Borrowed(s)) => Fieldname::Unknown(
                Cow::Owned(vstd::slice::slice_to_vec(s)),
            ),
            Fieldname::Unknown(Cow::Owned(s)) => Fieldname::Unknown(
                Cow::Owned(vstd::slice::slice_to_vec(s.as_slice())),
            ),
            Fieldname::Known(k) => Fieldname::Known(*k),
        }
    }
}

impl<'a> vstd::std_specs::convert::FromSpecImpl<&'a [u8]> for Fieldname<'a> {
    open spec fn obeys_from_spec() -> bool {
        true
    }

    open spec fn from_spec(value: &'a [u8]) -> Fieldname<'a> {
        match Known::spelled(value@) {
            Some(k) => Fieldname::Known(k),
            None => Fieldname::Unknown(Cow::Borrowed(value)),
        }
    }
}

impl<'a> From<&'a [u8]> for Fieldname<'a> {
    /// The name that the bytes spell: the well-known name if they spell
    /// one, and the bytes themselves if they do not.
    fn from(value: &'a [u8]) -> (r: Fieldname<'a>)
        ensures
            r@ == value@,
    {
        match Known::lookup(value) {
            Some(k) => Fieldname::Known(k),
            None => Fieldname::Unknown(Cow::Borrowed(value)),
        }
    }
}

} // verus!
