//! Which ICMP transport the program may use.
//!
//! The program works without administrator rights, but measures better with
//! them. What is available is found out once, and no check ever disappears
//! silently: what cannot be done is marked as skipped, with an explanation.

use vstd::prelude::*;

verus! {

/// How ICMP echoes are sent, in order of decreasing precision.
#[derive(Debug, Clone, Copy, PartialEq, Eq, Structural)]
pub enum IcmpBackend {
    /// A raw socket: full access to headers and ICMP errors. Needs rights.
    RawSocket,
    /// `IcmpSendEcho2` of iphlpapi, open to any process on Windows.
    WindowsIcmpApi,
    /// A datagram ICMP socket, open to any process on Linux where
    /// `net.ipv4.ping_group_range` allows it.
    LinuxDgram,
    /// None of these: only TCP probes and system tools are left.
    Fallback,
}

impl IcmpBackend {
    pub open spec fn title_text(self) -> Seq<char> {
        match self {
            IcmpBackend::RawSocket => "Расширенный режим"@,
            IcmpBackend::WindowsIcmpApi => "Обычный режим"@,
            IcmpBackend::LinuxDgram => "Обычный режим"@,
            IcmpBackend::Fallback => "Ограниченный режим"@,
        }
    }

    pub fn title(self) -> (r: &'static str)
        ensures
            r@ == self.title_text(),
    {
        match self {
            IcmpBackend::RawSocket => "Расширенный режим",
            IcmpBackend::WindowsIcmpApi => "Обычный режим",
            IcmpBackend::LinuxDgram => "Обычный режим",
            IcmpBackend::Fallback => "Ограниченный режим",
        }
    }

    pub open spec fn explanation_text(self) -> Seq<char> {
        match self {
            IcmpBackend::RawSocket => "Доступны точные замеры задержек и разбор сетевых ошибок по пути."@,
            IcmpBackend::WindowsIcmpApi => "Доступны ping и трассировка. Для самых точных замеров запустите программу от имени администратора."@,
            IcmpBackend::LinuxDgram => "Доступны ping и трассировка. Для самых точных замеров запустите программу через sudo или выдайте ей CAP_NET_RAW."@,
            IcmpBackend::Fallback => "ICMP недоступен: система не даёт отправлять эхо-запросы. Проверки пойдут через TCP-пробы, трассировка будет менее подробной."@,
        }
    }

    /// What this means for the user.
    pub fn explanation(self) -> (r: &'static str)
        ensures
            r@ == self.explanation_text(),
    {
        match self {
            IcmpBackend::RawSocket => "Доступны точные замеры задержек и разбор сетевых ошибок по пути.",
            IcmpBackend::WindowsIcmpApi => "Доступны ping и трассировка. Для самых точных замеров запустите программу от имени администратора.",
            IcmpBackend::LinuxDgram => "Доступны ping и трассировка. Для самых точных замеров запустите программу через sudo или выдайте ей CAP_NET_RAW.",
            IcmpBackend::Fallback => "ICMP недоступен: система не даёт отправлять эхо-запросы. Проверки пойдут через TCP-пробы, трассировка будет менее подробной.",
        }
    }
}

/// What the program can do where it runs.
#[derive(Debug, Clone, Copy, PartialEq, Eq, Structural)]
pub struct Capabilities {
    pub icmp: IcmpBackend,
    /// Whether the process has elevated rights.
    pub elevated: bool,
}

impl Capabilities {
    /// The best transport that trial sockets show to be available:
    /// `raw` and `dgram` say whether such a socket could be opened, `windows`
    /// whether the system offers `IcmpSendEcho2`.
    pub fn detect(raw: bool, windows: bool, dgram: bool) -> (r: Self)
        ensures
            r.elevated == raw,
            r.icmp == (if raw {
                IcmpBackend::RawSocket
            } else if windows {
                IcmpBackend::WindowsIcmpApi
            } else if dgram {
                IcmpBackend::LinuxDgram
            } else {
                IcmpBackend::Fallback
            }),
    {
        let icmp = if raw {
            IcmpBackend::RawSocket
        } else if windows {
            IcmpBackend::WindowsIcmpApi
        } else if dgram {
            IcmpBackend::LinuxDgram
        } else {
            IcmpBackend::Fallback
        };
        Capabilities { icmp, elevated: raw }
    }
}

} // verus!
