//! The editors of a channel's interface and recordings: what each control does to the
//! configuration.

use vstd::prelude::*;
use vstd::string::*;

use crate::config::schema::{
    ChannelConfig, ChannelConfigModel, DataBits, FileRotationPolicy, FlowControl, InterfaceConfig,
    InterfaceConfigModel, OverwritePolicy, Parity, RecordingConfig, RecordingConfigModel,
    SerialConfigModel, StopBits, TcpListenerConfigModel, UdpConfigModel, UdpMode,
};
use crate::gui::widgets::{baud_from_text, optional_field, port_from_text, step_port};
use crate::record::{effective_overwrite, overwrite_under};
use crate::text::{decimal, decimal_text, trimmed, unsigned_of};

verus! {

/// One edit of an interface.
#[derive(Debug)]
pub enum InterfaceEdit {
    Mode(UdpMode),
    BindAddress(String),
    /// Text typed into the port field.
    PortText(String),
    /// One port down.
    PortDown,
    /// One port up.
    PortUp,
    /// Text typed into the field for the multicast group.
    Group(String),
    KernelTimestamps(bool),
    /// The serial device.
    Device(String),
    /// One of the offered baud rates.
    Baud(u32),
    /// Text typed into the field for a custom baud rate.
    BaudText(String),
    DataBits(DataBits),
    Parity(Parity),
    StopBits(StopBits),
    Flow(FlowControl),
}

/// A port after an edit: a text that is no port leaves it, and steps stay in range.
pub open spec fn edited_port(port: u16, edit: InterfaceEdit) -> u16 {
    match edit {
        InterfaceEdit::PortText(t) => match unsigned_of(trimmed(t@), 65_535) {
            Some(n) => n as u16,
            None => port,
        },
        InterfaceEdit::PortDown => if port == 0 {
            0
        } else {
            (port - 1) as u16
        },
        InterfaceEdit::PortUp => if port == u16::MAX {
            port
        } else {
            (port + 1) as u16
        },
        _ => port,
    }
}

/// A baud rate after an edit: a text that is no positive number leaves it.
pub open spec fn edited_baud(baud: u32, edit: InterfaceEdit) -> u32 {
    match edit {
        InterfaceEdit::Baud(b) => b,
        InterfaceEdit::BaudText(t) => match unsigned_of(trimmed(t@), 4_294_967_295) {
            Some(n) => if n > 0 {
                n as u32
            } else {
                baud
            },
            None => baud,
        },
        _ => baud,
    }
}

/// An interface after an edit. An edit of something that the interface has not leaves
/// it; the group of a multicast is only edited in that mode.
pub open spec fn edited_interface(i: InterfaceConfigModel, edit: InterfaceEdit) -> InterfaceConfigModel {
    match i {
        InterfaceConfigModel::Udp(u) => InterfaceConfigModel::Udp(
            UdpConfigModel {
                mode: match edit {
                    InterfaceEdit::Mode(m) => m,
                    _ => u.mode,
                },
                bind_address: match edit {
                    InterfaceEdit::BindAddress(a) => a@,
                    _ => u.bind_address,
                },
                port: edited_port(u.port, edit),
                multicast_group: match edit {
                    InterfaceEdit::Group(g) => if !(u.mode is Multicast) {
                        u.multicast_group
                    } else if trimmed(g@).len() == 0 {
                        None
                    } else {
                        Some(trimmed(g@))
                    },
                    _ => u.multicast_group,
                },
                kernel_timestamps: match edit {
                    InterfaceEdit::KernelTimestamps(on) => on,
                    _ => u.kernel_timestamps,
                },
                ..u
            },
        ),
        InterfaceConfigModel::TcpListener(t) => InterfaceConfigModel::TcpListener(
            TcpListenerConfigModel {
                bind_address: match edit {
                    InterfaceEdit::BindAddress(a) => a@,
                    _ => t.bind_address,
                },
                port: edited_port(t.port, edit),
                ..t
            },
        ),
        InterfaceConfigModel::Serial(s) => InterfaceConfigModel::Serial(
            SerialConfigModel {
                port: match edit {
                    InterfaceEdit::Device(d) => d@,
                    _ => s.port,
                },
                baud_rate: edited_baud(s.baud_rate, edit),
                data_bits: match edit {
                    InterfaceEdit::DataBits(v) => v,
                    _ => s.data_bits,
                },
                parity: match edit {
                    InterfaceEdit::Parity(v) => v,
                    _ => s.parity,
                },
                stop_bits: match edit {
                    InterfaceEdit::StopBits(v) => v,
                    _ => s.stop_bits,
                },
                flow_control: match edit {
                    InterfaceEdit::Flow(v) => v,
                    _ => s.flow_control,
                },
                ..s
            },
        ),
    }
}

/// What the field for a custom baud rate holds after an edit: what was typed, or the
/// offered rate that was picked. It is not derived from the rate, so that a rate can be
/// typed digit by digit.
pub open spec fn edited_baud_text(
    text: Seq<char>,
    i: InterfaceConfigModel,
    edit: InterfaceEdit,
) -> Seq<char> {
    match (i, edit) {
        (InterfaceConfigModel::Serial(s), InterfaceEdit::Baud(b)) => if b != s.baud_rate {
            decimal(b as nat)
        } else {
            text
        },
        (InterfaceConfigModel::Serial(_), InterfaceEdit::BaudText(t)) => t@,
        _ => text,
    }
}

/// A port after an edit.
fn edit_port(port: u16, edit: &InterfaceEdit) -> (r: u16)
    ensures
        r == edited_port(port, *edit),
{
    match edit {
        InterfaceEdit::PortText(t) => port_from_text(t.as_str(), port),
        InterfaceEdit::PortDown => step_port(port, false),
        InterfaceEdit::PortUp => step_port(port, true),
        _ => port,
    }
}

/// Applies one edit to the interface of a channel and to the text of the field for a
/// custom baud rate. The rest of the configuration stays; the edits take effect when the
/// channel restarts.
pub fn edit_interface(config: &mut ChannelConfig, baud_text: &mut String, edit: &InterfaceEdit)
    ensures
        final(config)@ == (ChannelConfigModel {
            interface: edited_interface(old(config)@.interface, *edit),
            ..old(config)@
        }),
        final(baud_text)@ == edited_baud_text(old(baud_text)@, old(config)@.interface, *edit),
{
    let ghost before = config@.interface;
    match &mut config.interface {
        InterfaceConfig::Udp(udp) => {
            udp.port = edit_port(udp.port, edit);
            match edit {
                InterfaceEdit::Mode(m) => {
                    udp.mode = *m;
                },
                InterfaceEdit::BindAddress(a) => {
                    udp.bind_address = a.clone();
                },
                InterfaceEdit::Group(g) => {
                    if udp.mode == UdpMode::Multicast {
                        udp.multicast_group = optional_field(g.as_str());
                    }
                },
                InterfaceEdit::KernelTimestamps(on) => {
                    udp.kernel_timestamps = *on;
                },
                _ => {},
            }
        },
        InterfaceConfig::TcpListener(tcp) => {
            tcp.port = edit_port(tcp.port, edit);
            if let InterfaceEdit::BindAddress(a) = edit {
                tcp.bind_address = a.clone();
            }
        },
        InterfaceConfig::Serial(serial) => {
            match edit {
                InterfaceEdit::Device(d) => {
                    serial.port = d.clone();
                },
                InterfaceEdit::Baud(b) => {
                    if *b != serial.baud_rate {
                        *baud_text = decimal_text(*b as u64);
                    }
                    serial.baud_rate = *b;
                },
                InterfaceEdit::BaudText(t) => {
                    serial.baud_rate = baud_from_text(t.as_str(), serial.baud_rate);
                    *baud_text = t.clone();
                },
                InterfaceEdit::DataBits(v) => {
                    serial.data_bits = *v;
                },
                InterfaceEdit::Parity(v) => {
                    serial.parity = *v;
                },
                InterfaceEdit::StopBits(v) => {
                    serial.stop_bits = *v;
                },
                InterfaceEdit::Flow(v) => {
                    serial.flow_control = *v;
                },
                _ => {},
            }
        },
    }
}

/// An edit keeps the kind of the interface.
pub proof fn law_edits_keep_the_interface_kind(i: InterfaceConfigModel, edit: InterfaceEdit)
    ensures
        edited_interface(i, edit) is Udp <==> i is Udp,
        edited_interface(i, edit) is TcpListener <==> i is TcpListener,
        edited_interface(i, edit) is Serial <==> i is Serial,
{
}

/// A typed baud rate never becomes zero.
pub proof fn law_typed_rates_stay_positive(baud: u32, edit: InterfaceEdit)
    requires
        baud > 0,
        !(edit is Baud),
    ensures
        edited_baud(baud, edit) > 0,
{
}

/// One edit of a recording.
#[derive(Debug)]
pub enum RecordingEdit {
    /// Nothing was edited.
    Keep,
    /// Text typed into the field for the destination.
    DestinationText(String),
    /// A destination that was picked in a dialog.
    Picked(String),
    Overwrite(OverwritePolicy),
    Rotation(FileRotationPolicy),
}

/// A recording after an edit. The policy that held under the rotation is settled first;
/// a refusal cannot be chosen while the recording rotates.
pub open spec fn edited_recording(rec: RecordingConfigModel, edit: RecordingEdit) -> RecordingConfigModel {
    let settled = overwrite_under(rec.overwrite_policy, rec.file_rotation);
    RecordingConfigModel {
        destination: match edit {
            RecordingEdit::DestinationText(t) => if trimmed(t@).len() == 0 {
                None
            } else {
                Some(trimmed(t@))
            },
            RecordingEdit::Picked(p) => Some(p@),
            _ => rec.destination,
        },
        overwrite_policy: match edit {
            RecordingEdit::Overwrite(p) => if p is Refuse && !(rec.file_rotation is NoRotation) {
                settled
            } else {
                p
            },
            _ => settled,
        },
        file_rotation: match edit {
            RecordingEdit::Rotation(r) => r,
            _ => rec.file_rotation,
        },
        ..rec
    }
}

/// Applies one edit to a recording.
pub fn edit_recording(rec: &mut RecordingConfig, edit: &RecordingEdit)
    ensures
        final(rec)@ == edited_recording(old(rec)@, *edit),
{
    rec.overwrite_policy = effective_overwrite(rec.overwrite_policy, rec.file_rotation);
    match edit {
        RecordingEdit::Keep => {},
        RecordingEdit::DestinationText(t) => {
            rec.destination = optional_field(t.as_str());
        },
        RecordingEdit::Picked(p) => {
            rec.destination = Some(p.clone());
        },
        RecordingEdit::Overwrite(p) => {
            let rotating: bool = rec.file_rotation != FileRotationPolicy::NoRotation;
            if !(*p == OverwritePolicy::Refuse && rotating) {
                rec.overwrite_policy = *p;
            }
        },
        RecordingEdit::Rotation(r) => {
            rec.file_rotation = *r;
        },
    }
}

/// While a recording rotates and the rotation is not being edited, it never refuses.
pub proof fn law_rotating_recordings_never_refuse(rec: RecordingConfigModel, edit: RecordingEdit)
    requires
        !(rec.file_rotation is NoRotation),
        !(edit is Rotation),
    ensures
        !(edited_recording(rec, edit).overwrite_policy is Refuse),
{
}

/// What the destination of a recording is called: a folder when it rotates.
pub fn destination_label(rotation: FileRotationPolicy) -> (r: &'static str)
    ensures
        r@ == if rotation is NoRotation {
            "File"@
        } else {
            "Folder"@
        },
{
    if rotation == FileRotationPolicy::NoRotation {
        "File"
    } else {
        "Folder"
    }
}

/// The warning beside a recording without a destination.
pub fn destination_warning(rec: &RecordingConfig) -> (r: Option<&'static str>)
    ensures
        r is Some <==> rec@.destination is None,
        r matches Some(t) ==> t@
            == "\u{26A0} set a destination \u{2014} recording won't start without one"@,
{
    if rec.destination.is_none() {
        Some("\u{26A0} set a destination \u{2014} recording won't start without one")
    } else {
        None
    }
}

/// What choosing a refusal means.
pub fn refuse_hint(rotation: FileRotationPolicy) -> (r: &'static str)
    ensures
        r@ == if rotation is NoRotation {
            "Don't record \u{2014} fail rather than touch the existing file."@
        } else {
            "Not available with rotation \u{2014} each period starts a fresh file."@
        },
{
    if rotation == FileRotationPolicy::NoRotation {
        "Don't record \u{2014} fail rather than touch the existing file."
    } else {
        "Not available with rotation \u{2014} each period starts a fresh file."
    }
}

} // verus!
