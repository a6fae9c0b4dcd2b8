//! The protocol's command words: the base command set, the IoT command set,
//! the combined view over both, and the helpers that build command models
//! from them.

use vstd::prelude::*;
use vstd::string::StringExecFns;

use crate::model::TtlvCommandModel;

verus! {

/// Base command constants.
#[derive(Clone, Copy, Debug, PartialEq, Eq, Hash, Structural)]
pub enum Cmd {
    UdpBroadcast,
    UdpBroadcastResp,
    TcpHeartBeat,
    TcpHeartBeatResp,
    Random,
    RandomResp,
    Login,
    LoginResp,
    BLEAccountAuthentication,
    BLEAccountAuthenticationResp,
    TlsRead,
    TlsReadRes,
    TlsWrite,
    TlsDeviceReport,
    TlsWriteRes,
    WifiPair,
    WifiPairResp,
    WifiScan,
    WifiScanResp,
}

impl Cmd {
    /// The wire code of this command.
    pub open spec fn spec_code(self) -> i32 {
        match self {
            Cmd::UdpBroadcast => 0x7030,
            Cmd::UdpBroadcastResp => 0x7031,
            Cmd::TcpHeartBeat => 0x7037,
            Cmd::TcpHeartBeatResp => 0x7038,
            Cmd::Random => 0x7032,
            Cmd::RandomResp => 0x7033,
            Cmd::Login => 0x7034,
            Cmd::LoginResp => 0x7035,
            Cmd::BLEAccountAuthentication => 0x7016,
            Cmd::BLEAccountAuthenticationResp => 0x7017,
            Cmd::TlsRead => 0x0011,
            Cmd::TlsReadRes => 0x0012,
            Cmd::TlsWrite => 0x0013,
            Cmd::TlsDeviceReport => 0x0014,
            Cmd::TlsWriteRes => 0x7036,
            Cmd::WifiPair => 0x7010,
            Cmd::WifiPairResp => 0x7011,
            Cmd::WifiScan => 0x7012,
            Cmd::WifiScanResp => 0x7013,
        }
    }

    /// The base command with the given wire code, if any.
    pub open spec fn spec_from(value: i32) -> Option<Cmd> {
        match value {
            0x7030 => Some(Cmd::UdpBroadcast),
            0x7031 => Some(Cmd::UdpBroadcastResp),
            0x7037 => Some(Cmd::TcpHeartBeat),
            0x7038 => Some(Cmd::TcpHeartBeatResp),
            0x7032 => Some(Cmd::Random),
            0x7033 => Some(Cmd::RandomResp),
            0x7034 => Some(Cmd::Login),
            0x7035 => Some(Cmd::LoginResp),
            0x7016 => Some(Cmd::BLEAccountAuthentication),
            0x7017 => Some(Cmd::BLEAccountAuthenticationResp),
            0x0011 => Some(Cmd::TlsRead),
            0x0012 => Some(Cmd::TlsReadRes),
            0x0013 => Some(Cmd::TlsWrite),
            0x0014 => Some(Cmd::TlsDeviceReport),
            0x7036 => Some(Cmd::TlsWriteRes),
            0x7010 => Some(Cmd::WifiPair),
            0x7011 => Some(Cmd::WifiPairResp),
            0x7012 => Some(Cmd::WifiScan),
            0x7013 => Some(Cmd::WifiScanResp),
            _ => None,
        }
    }

    /// Convert enum to i32.
    pub fn as_i32(self) -> (r: i32)
        ensures
            r == self.spec_code(),
    {
        match self {
            Cmd::UdpBroadcast => 0x7030,
            Cmd::UdpBroadcastResp => 0x7031,
            Cmd::TcpHeartBeat => 0x7037,
            Cmd::TcpHeartBeatResp => 0x7038,
            Cmd::Random => 0x7032,
            Cmd::RandomResp => 0x7033,
            Cmd::Login => 0x7034,
            Cmd::LoginResp => 0x7035,
            Cmd::BLEAccountAuthentication => 0x7016,
            Cmd::BLEAccountAuthenticationResp => 0x7017,
            Cmd::TlsRead => 0x0011,
            Cmd::TlsReadRes => 0x0012,
            Cmd::TlsWrite => 0x0013,
            Cmd::TlsDeviceReport => 0x0014,
            Cmd::TlsWriteRes => 0x7036,
            Cmd::WifiPair => 0x7010,
            Cmd::WifiPairResp => 0x7011,
            Cmd::WifiScan => 0x7012,
            Cmd::WifiScanResp => 0x7013,
        }
    }

    /// Convert i32 to enum (returns None if invalid).
    pub fn from_i32(value: i32) -> (r: Option<Cmd>)
        ensures
            r == Cmd::spec_from(value),
    {
        match value {
            0x7030 => Some(Cmd::UdpBroadcast),
            0x7031 => Some(Cmd::UdpBroadcastResp),
            0x7037 => Some(Cmd::TcpHeartBeat),
            0x7038 => Some(Cmd::TcpHeartBeatResp),
            0x7032 => Some(Cmd::Random),
            0x7033 => Some(Cmd::RandomResp),
            0x7034 => Some(Cmd::Login),
            0x7035 => Some(Cmd::LoginResp),
            0x7016 => Some(Cmd::BLEAccountAuthentication),
            0x7017 => Some(Cmd::BLEAccountAuthenticationResp),
            0x0011 => Some(Cmd::TlsRead),
            0x0012 => Some(Cmd::TlsReadRes),
            0x0013 => Some(Cmd::TlsWrite),
            0x0014 => Some(Cmd::TlsDeviceReport),
            0x7036 => Some(Cmd::TlsWriteRes),
            0x7010 => Some(Cmd::WifiPair),
            0x7011 => Some(Cmd::WifiPairResp),
            0x7012 => Some(Cmd::WifiScan),
            0x7013 => Some(Cmd::WifiScanResp),
            _ => None,
        }
    }
}

/// Looking a command's code back up finds the same command.
pub proof fn lemma_cmd_code_round_trip(c: Cmd)
    ensures
        Cmd::spec_from(c.spec_code()) == Some(c),
{
}

/// IoT-specific command constants.
#[derive(Clone, Copy, Debug, PartialEq, Eq, Hash, Structural)]
pub enum IotCmd {
    ReadDeviceStatus,
    ReadDeviceStatusAck,
    ReadDeviceWifiList,
    ReadDeviceWifiListAck,
    ReadDeviceWifiListReport,
    ReadDeviceWifiListReportAck,
    ReadDeviceSwitchWifi,
    ReadDeviceSwitchWifiAck,
    ReadDeviceInfo,
    ReadDeviceInfoAck,
    FileControl,
    FileControlAck,
    DeviceDataReport,
    DeviceDataReportAck,
    SendDeviceTransparent,
    ReceiveDeviceTransparent,
    DeviceTimeSyncReport,
    DeviceTimeSyncReportAck,
    SendDeviceTimeSyncEvent,
    DeviceUnbindReport,
    DeviceUnbindReportAck,
    SendDeviceAccountAuth,
    SendDeviceAccountAuthAck,
}

impl IotCmd {
    /// The wire code of this command.
    pub open spec fn spec_code(self) -> i32 {
        match self {
            IotCmd::ReadDeviceStatus => 0x0031,
            IotCmd::ReadDeviceStatusAck => 0x0032,
            IotCmd::ReadDeviceWifiList => 0x7051,
            IotCmd::ReadDeviceWifiListAck => 0x7052,
            IotCmd::ReadDeviceWifiListReport => 0x7053,
            IotCmd::ReadDeviceWifiListReportAck => 0x7054,
            IotCmd::ReadDeviceSwitchWifi => 0x7055,
            IotCmd::ReadDeviceSwitchWifiAck => 0x7056,
            IotCmd::ReadDeviceInfo => 0x7040,
            IotCmd::ReadDeviceInfoAck => 0x7041,
            IotCmd::FileControl => 0x7043,
            IotCmd::FileControlAck => 0x7044,
            IotCmd::DeviceDataReport => 0x7065,
            IotCmd::DeviceDataReportAck => 0x7066,
            IotCmd::SendDeviceTransparent => 0x0023,
            IotCmd::ReceiveDeviceTransparent => 0x0024,
            IotCmd::DeviceTimeSyncReport => 0x7060,
            IotCmd::DeviceTimeSyncReportAck => 0x7061,
            IotCmd::SendDeviceTimeSyncEvent => 0x7062,
            IotCmd::DeviceUnbindReport => 0x7063,
            IotCmd::DeviceUnbindReportAck => 0x7064,
            IotCmd::SendDeviceAccountAuth => 0x7017,
            IotCmd::SendDeviceAccountAuthAck => 0x7018,
        }
    }

    /// The IoT command with the given wire code, if any.
    pub open spec fn spec_from(value: i32) -> Option<IotCmd> {
        match value {
            0x0031 => Some(IotCmd::ReadDeviceStatus),
            0x0032 => Some(IotCmd::ReadDeviceStatusAck),
            0x7051 => Some(IotCmd::ReadDeviceWifiList),
            0x7052 => Some(IotCmd::ReadDeviceWifiListAck),
            0x7053 => Some(IotCmd::ReadDeviceWifiListReport),
            0x7054 => Some(IotCmd::ReadDeviceWifiListReportAck),
            0x7055 => Some(IotCmd::ReadDeviceSwitchWifi),
            0x7056 => Some(IotCmd::ReadDeviceSwitchWifiAck),
            0x7040 => Some(IotCmd::ReadDeviceInfo),
            0x7041 => Some(IotCmd::ReadDeviceInfoAck),
            0x7043 => Some(IotCmd::FileControl),
            0x7044 => Some(IotCmd::FileControlAck),
            0x7065 => Some(IotCmd::DeviceDataReport),
            0x7066 => Some(IotCmd::DeviceDataReportAck),
            0x0023 => Some(IotCmd::SendDeviceTransparent),
            0x0024 => Some(IotCmd::ReceiveDeviceTransparent),
            0x7060 => Some(IotCmd::DeviceTimeSyncReport),
            0x7061 => Some(IotCmd::DeviceTimeSyncReportAck),
            0x7062 => Some(IotCmd::SendDeviceTimeSyncEvent),
            0x7063 => Some(IotCmd::DeviceUnbindReport),
            0x7064 => Some(IotCmd::DeviceUnbindReportAck),
            0x7017 => Some(IotCmd::SendDeviceAccountAuth),
            0x7018 => Some(IotCmd::SendDeviceAccountAuthAck),
            _ => None,
        }
    }

    /// Convert enum to i32.
    pub fn as_i32(self) -> (r: i32)
        ensures
            r == self.spec_code(),
    {
        match self {
            IotCmd::ReadDeviceStatus => 0x0031,
            IotCmd::ReadDeviceStatusAck => 0x0032,
            IotCmd::ReadDeviceWifiList => 0x7051,
            IotCmd::ReadDeviceWifiListAck => 0x7052,
            IotCmd::ReadDeviceWifiListReport => 0x7053,
            IotCmd::ReadDeviceWifiListReportAck => 0x7054,
            IotCmd::ReadDeviceSwitchWifi => 0x7055,
            IotCmd::ReadDeviceSwitchWifiAck => 0x7056,
            IotCmd::ReadDeviceInfo => 0x7040,
            IotCmd::ReadDeviceInfoAck => 0x7041,
            IotCmd::FileControl => 0x7043,
            IotCmd::FileControlAck => 0x7044,
            IotCmd::DeviceDataReport => 0x7065,
            IotCmd::DeviceDataReportAck => 0x7066,
            IotCmd::SendDeviceTransparent => 0x0023,
            IotCmd::ReceiveDeviceTransparent => 0x0024,
            IotCmd::DeviceTimeSyncReport => 0x7060,
            IotCmd::DeviceTimeSyncReportAck => 0x7061,
            IotCmd::SendDeviceTimeSyncEvent => 0x7062,
            IotCmd::DeviceUnbindReport => 0x7063,
            IotCmd::DeviceUnbindReportAck => 0x7064,
            IotCmd::SendDeviceAccountAuth => 0x7017,
            IotCmd::SendDeviceAccountAuthAck => 0x7018,
        }
    }

    /// Convert i32 to enum (returns None if invalid).
    pub fn from_i32(value: i32) -> (r: Option<IotCmd>)
        ensures
            r == IotCmd::spec_from(value),
    {
        match value {
            0x0031 => Some(IotCmd::ReadDeviceStatus),
            0x0032 => Some(IotCmd::ReadDeviceStatusAck),
            0x7051 => Some(IotCmd::ReadDeviceWifiList),
            0x7052 => Some(IotCmd::ReadDeviceWifiListAck),
            0x7053 => Some(IotCmd::ReadDeviceWifiListReport),
            0x7054 => Some(IotCmd::ReadDeviceWifiListReportAck),
            0x7055 => Some(IotCmd::ReadDeviceSwitchWifi),
            0x7056 => Some(IotCmd::ReadDeviceSwitchWifiAck),
            0x7040 => Some(IotCmd::ReadDeviceInfo),
            0x7041 => Some(IotCmd::ReadDeviceInfoAck),
            0x7043 => Some(IotCmd::FileControl),
            0x7044 => Some(IotCmd::FileControlAck),
            0x7065 => Some(IotCmd::DeviceDataReport),
            0x7066 => Some(IotCmd::DeviceDataReportAck),
            0x0023 => Some(IotCmd::SendDeviceTransparent),
            0x0024 => Some(IotCmd::ReceiveDeviceTransparent),
            0x7060 => Some(IotCmd::DeviceTimeSyncReport),
            0x7061 => Some(IotCmd::DeviceTimeSyncReportAck),
            0x7062 => Some(IotCmd::SendDeviceTimeSyncEvent),
            0x7063 => Some(IotCmd::DeviceUnbindReport),
            0x7064 => Some(IotCmd::DeviceUnbindReportAck),
            0x7017 => Some(IotCmd::SendDeviceAccountAuth),
            0x7018 => Some(IotCmd::SendDeviceAccountAuthAck),
            _ => None,
        }
    }
}

/// Looking an IoT command's code back up finds the same command.
pub proof fn lemma_iot_cmd_code_round_trip(c: IotCmd)
    ensures
        IotCmd::spec_from(c.spec_code()) == Some(c),
{
}

/// Combined command enum covering both the base and the IoT command sets.
#[derive(Clone, Copy, Debug, PartialEq, Eq, Hash, Structural)]
pub enum Command {
    Base(Cmd),
    Iot(IotCmd),
}

impl Command {
    /// The wire code of this command.
    pub open spec fn spec_code(self) -> i32 {
        match self {
            Command::Base(cmd) => cmd.spec_code(),
            Command::Iot(cmd) => cmd.spec_code(),
        }
    }

    /// The command with the given wire code, base commands taking
    /// precedence.
    pub open spec fn spec_from(value: i32) -> Option<Command> {
        match Cmd::spec_from(value) {
            Some(cmd) => Some(Command::Base(cmd)),
            None => match IotCmd::spec_from(value) {
                Some(cmd) => Some(Command::Iot(cmd)),
                None => None,
            },
        }
    }

    /// Convert enum to i32.
    pub fn as_i32(self) -> (r: i32)
        ensures
            r == self.spec_code(),
    {
        match self {
            Command::Base(cmd) => cmd.as_i32(),
            Command::Iot(cmd) => cmd.as_i32(),
        }
    }

    /// Convert i32 to enum (returns None if invalid).
    pub fn from_i32(value: i32) -> (r: Option<Command>)
        ensures
            r == Command::spec_from(value),
    {
        if let Some(cmd) = Cmd::from_i32(value) {
            return Some(Command::Base(cmd));
        }
        if let Some(cmd) = IotCmd::from_i32(value) {
            return Some(Command::Iot(cmd));
        }
        None
    }

    /// Check if this is a base command.
    pub fn is_base(&self) -> (r: bool)
        ensures
            r == (self is Base),
    {
        matches!(self, Command::Base(_))
    }

    /// Check if this is an IoT command.
    pub fn is_iot(&self) -> (r: bool)
        ensures
            r == (self is Iot),
    {
        matches!(self, Command::Iot(_))
    }
}

/// Create a TtlvCommandModel with a base command.
pub fn create_base_command(cmd: Cmd, packet_id: i32) -> (r: TtlvCommandModel)
    ensures
        r.cmd == cmd.spec_code(),
        r.packet_id == packet_id,
        r.payloads@.len() == 0,
{
    TtlvCommandModel::new(cmd.as_i32(), packet_id)
}

/// Create a TtlvCommandModel with an IoT command.
pub fn create_iot_command(cmd: IotCmd, packet_id: i32) -> (r: TtlvCommandModel)
    ensures
        r.cmd == cmd.spec_code(),
        r.packet_id == packet_id,
        r.payloads@.len() == 0,
{
    TtlvCommandModel::new(cmd.as_i32(), packet_id)
}

/// Create a TtlvCommandModel with a combined command.
pub fn create_command(cmd: Command, packet_id: i32) -> (r: TtlvCommandModel)
    ensures
        r.cmd == cmd.spec_code(),
        r.packet_id == packet_id,
        r.payloads@.len() == 0,
{
    TtlvCommandModel::new(cmd.as_i32(), packet_id)
}

/// Check if a command value is a base command.
pub fn is_base_command(value: i32) -> (r: bool)
    ensures
        r == (Cmd::spec_from(value) is Some),
{
    Cmd::from_i32(value).is_some()
}

/// Check if a command value is an IoT command.
pub fn is_iot_command(value: i32) -> (r: bool)
    ensures
        r == (IotCmd::spec_from(value) is Some),
{
    IotCmd::from_i32(value).is_some()
}

/// The display name of the command with the given wire code.
pub open spec fn spec_command_name(value: i32) -> Seq<char> {
    match Cmd::spec_from(value) {
        Some(c) => spec_cmd_name(c),
        None => match IotCmd::spec_from(value) {
            Some(c) => spec_iot_cmd_name(c),
            None => Seq::empty(),
        },
    }
}

pub open spec fn spec_cmd_name(c: Cmd) -> Seq<char> {
    match c {
        Cmd::UdpBroadcast => "UdpBroadcast"@,
        Cmd::UdpBroadcastResp => "UdpBroadcastResp"@,
        Cmd::TcpHeartBeat => "TcpHeartBeat"@,
        Cmd::TcpHeartBeatResp => "TcpHeartBeatResp"@,
        Cmd::Random => "Random"@,
        Cmd::RandomResp => "RandomResp"@,
        Cmd::Login => "Login"@,
        Cmd::LoginResp => "LoginResp"@,
        Cmd::BLEAccountAuthentication => "BLEAccountAuthentication"@,
        Cmd::BLEAccountAuthenticationResp => "BLEAccountAuthenticationResp"@,
        Cmd::TlsRead => "TlsRead"@,
        Cmd::TlsReadRes => "TlsReadRes"@,
        Cmd::TlsWrite => "TlsWrite"@,
        Cmd::TlsDeviceReport => "TlsDeviceReport"@,
        Cmd::TlsWriteRes => "TlsWriteRes"@,
        Cmd::WifiPair => "WifiPair"@,
        Cmd::WifiPairResp => "WifiPairResp"@,
        Cmd::WifiScan => "WifiScan"@,
        Cmd::WifiScanResp => "WifiScanResp"@,
    }
}

pub open spec fn spec_iot_cmd_name(c: IotCmd) -> Seq<char> {
    match c {
        IotCmd::ReadDeviceStatus => "ReadDeviceStatus"@,
        IotCmd::ReadDeviceStatusAck => "ReadDeviceStatusAck"@,
        IotCmd::ReadDeviceWifiList => "ReadDeviceWifiList"@,
        IotCmd::ReadDeviceWifiListAck => "ReadDeviceWifiListAck"@,
        IotCmd::ReadDeviceWifiListReport => "ReadDeviceWifiListReport"@,
        IotCmd::ReadDeviceWifiListReportAck => "ReadDeviceWifiListReportAck"@,
        IotCmd::ReadDeviceSwitchWifi => "ReadDeviceSwitchWifi"@,
        IotCmd::ReadDeviceSwitchWifiAck => "ReadDeviceSwitchWifiAck"@,
        IotCmd::ReadDeviceInfo => "ReadDeviceInfo"@,
        IotCmd::ReadDeviceInfoAck => "ReadDeviceInfoAck"@,
        IotCmd::FileControl => "FileControl"@,
        IotCmd::FileControlAck => "FileControlAck"@,
        IotCmd::DeviceDataReport => "DeviceDataReport"@,
        IotCmd::DeviceDataReportAck => "DeviceDataReportAck"@,
        IotCmd::SendDeviceTransparent => "SendDeviceTransparent"@,
        IotCmd::ReceiveDeviceTransparent => "ReceiveDeviceTransparent"@,
        IotCmd::DeviceTimeSyncReport => "DeviceTimeSyncReport"@,
        IotCmd::DeviceTimeSyncReportAck => "DeviceTimeSyncReportAck"@,
        IotCmd::SendDeviceTimeSyncEvent => "SendDeviceTimeSyncEvent"@,
        IotCmd::DeviceUnbindReport => "DeviceUnbindReport"@,
        IotCmd::DeviceUnbindReportAck => "DeviceUnbindReportAck"@,
        IotCmd::SendDeviceAccountAuth => "SendDeviceAccountAuth"@,
        IotCmd::SendDeviceAccountAuthAck => "SendDeviceAccountAuthAck"@,
    }
}

/// Get command name as string.
pub fn get_command_name(value: i32) -> (r: Option<String>)
    ensures
        r is Some <==> Command::spec_from(value) is Some,
        r is Some ==> r->0@ == spec_command_name(value),
{
    if let Some(cmd) = Cmd::from_i32(value) {
        let name: &str = match cmd {
            Cmd::UdpBroadcast => "UdpBroadcast",
            Cmd::UdpBroadcastResp => "UdpBroadcastResp",
            Cmd::TcpHeartBeat => "TcpHeartBeat",
            Cmd::TcpHeartBeatResp => "TcpHeartBeatResp",
            Cmd::Random => "Random",
            Cmd::RandomResp => "RandomResp",
            Cmd::Login => "Login",
            Cmd::LoginResp => "LoginResp",
            Cmd::BLEAccountAuthentication => "BLEAccountAuthentication",
            Cmd::BLEAccountAuthenticationResp => "BLEAccountAuthenticationResp",
            Cmd::TlsRead => "TlsRead",
            Cmd::TlsReadRes => "TlsReadRes",
            Cmd::TlsWrite => "TlsWrite",
            Cmd::TlsDeviceReport => "TlsDeviceReport",
            Cmd::TlsWriteRes => "TlsWriteRes",
            Cmd::WifiPair => "WifiPair",
            Cmd::WifiPairResp => "WifiPairResp",
            Cmd::WifiScan => "WifiScan",
            Cmd::WifiScanResp => "WifiScanResp",
        };
        return Some(String::from_str(name));
    }
    if let Some(cmd) = IotCmd::from_i32(value) {
        let name: &str = match cmd {
            IotCmd::ReadDeviceStatus => "ReadDeviceStatus",
            IotCmd::ReadDeviceStatusAck => "ReadDeviceStatusAck",
            IotCmd::ReadDeviceWifiList => "ReadDeviceWifiList",
            IotCmd::ReadDeviceWifiListAck => "ReadDeviceWifiListAck",
            IotCmd::ReadDeviceWifiListReport => "ReadDeviceWifiListReport",
            IotCmd::ReadDeviceWifiListReportAck => "ReadDeviceWifiListReportAck",
            IotCmd::ReadDeviceSwitchWifi => "ReadDeviceSwitchWifi",
            IotCmd::ReadDeviceSwitchWifiAck => "ReadDeviceSwitchWifiAck",
            IotCmd::ReadDeviceInfo => "ReadDeviceInfo",
            IotCmd::ReadDeviceInfoAck => "ReadDeviceInfoAck",
            IotCmd::FileControl => "FileControl",
            IotCmd::FileControlAck => "FileControlAck",
            IotCmd::DeviceDataReport => "DeviceDataReport",
            IotCmd::DeviceDataReportAck => "DeviceDataReportAck",
            IotCmd::SendDeviceTransparent => "SendDeviceTransparent",
            IotCmd::ReceiveDeviceTransparent => "ReceiveDeviceTransparent",
            IotCmd::DeviceTimeSyncReport => "DeviceTimeSyncReport",
            IotCmd::DeviceTimeSyncReportAck => "DeviceTimeSyncReportAck",
            IotCmd::SendDeviceTimeSyncEvent => "SendDeviceTimeSyncEvent",
            IotCmd::DeviceUnbindReport => "DeviceUnbindReport",
            IotCmd::DeviceUnbindReportAck => "DeviceUnbindReportAck",
            IotCmd::SendDeviceAccountAuth => "SendDeviceAccountAuth",
            IotCmd::SendDeviceAccountAuthAck => "SendDeviceAccountAuthAck",
        };
        return Some(String::from_str(name));
    }
    None
}

} // verus!
