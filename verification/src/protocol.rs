//! The protocol interfaces: one struct per interface, the tagged sum of
//! them all, and the per-interface tables the dispatcher uses — names,
//! versions, and request signatures.
//!
//! Requests whose handlers this gateway does not implement yet are
//! decoded and validated like any other and then accepted as no-ops; the
//! signature tables below still reject bad opcodes and malformed
//! argument lists for them.

use vstd::prelude::*;
use vstd::string::StrSliceExecFns;
use vstd::string::StringSliceAdditionalSpecFns;

use crate::buffer::{MessageBuf, Write, BUF_SIZE, MAX_FDS_OUT};
use crate::error::MessageError;
use crate::input::SeatId;
use crate::registry::ObjectId;
use crate::wire::{
    emit_message, spec_arg_fds, spec_encode_args, spec_frame_bytes, ArgModel, ArgType, ArgValue,
};

verus! {

pub struct WlDisplay;

pub struct WlRegistry;

pub struct WlCallback;

pub struct WlCompositor;

/// A shared-memory pool: the descriptor the creating request carried —
/// owned by this object once `create_pool` ran, no longer queued — and
/// the pool's byte size.
pub struct WlShmPool {
    pub fd: i32,
    pub size: i32,
}

pub struct WlShm;

pub struct WlBuffer;

pub struct WlDataOffer;

pub struct WlDataSource;

pub struct WlDataDevice;

pub struct WlDataDeviceManager;

pub struct WlShell;

pub struct WlShellSurface;

pub struct WlSurface;

/// A seat object remembers which seat of the input state it stands for.
pub struct WlSeat {
    pub id: SeatId,
}

pub struct WlPointer;

pub struct WlKeyboard;

pub struct WlTouch;

pub struct WlOutput;

pub struct WlRegion;

pub struct WlSubcompositor;

pub struct WlSubsurface;

pub struct XdgWmBase;

pub struct XdgPositioner;

pub struct XdgSurface;

pub struct XdgToplevel;

pub struct XdgPopup;

/// Every protocol object the registry can hold, tagged by interface.
pub enum Interface {
    WlDisplay(WlDisplay),
    WlRegistry(WlRegistry),
    WlCallback(WlCallback),
    WlCompositor(WlCompositor),
    WlShmPool(WlShmPool),
    WlShm(WlShm),
    WlBuffer(WlBuffer),
    WlDataOffer(WlDataOffer),
    WlDataSource(WlDataSource),
    WlDataDevice(WlDataDevice),
    WlDataDeviceManager(WlDataDeviceManager),
    WlShell(WlShell),
    WlShellSurface(WlShellSurface),
    WlSurface(WlSurface),
    WlSeat(WlSeat),
    WlPointer(WlPointer),
    WlKeyboard(WlKeyboard),
    WlTouch(WlTouch),
    WlOutput(WlOutput),
    WlRegion(WlRegion),
    WlSubcompositor(WlSubcompositor),
    WlSubsurface(WlSubsurface),
    XdgWmBase(XdgWmBase),
    XdgPositioner(XdgPositioner),
    XdgSurface(XdgSurface),
    XdgToplevel(XdgToplevel),
    XdgPopup(XdgPopup),
}

/// The protocol name of an interface, as UTF-8 bytes.
pub open spec fn spec_interface_name(i: Interface) -> Seq<u8> {
    match i {
        Interface::WlDisplay(_) => "wl_display".spec_bytes(),
        Interface::WlRegistry(_) => "wl_registry".spec_bytes(),
        Interface::WlCallback(_) => "wl_callback".spec_bytes(),
        Interface::WlCompositor(_) => "wl_compositor".spec_bytes(),
        Interface::WlShmPool(_) => "wl_shm_pool".spec_bytes(),
        Interface::WlShm(_) => "wl_shm".spec_bytes(),
        Interface::WlBuffer(_) => "wl_buffer".spec_bytes(),
        Interface::WlDataOffer(_) => "wl_data_offer".spec_bytes(),
        Interface::WlDataSource(_) => "wl_data_source".spec_bytes(),
        Interface::WlDataDevice(_) => "wl_data_device".spec_bytes(),
        Interface::WlDataDeviceManager(_) => "wl_data_device_manager".spec_bytes(),
        Interface::WlShell(_) => "wl_shell".spec_bytes(),
        Interface::WlShellSurface(_) => "wl_shell_surface".spec_bytes(),
        Interface::WlSurface(_) => "wl_surface".spec_bytes(),
        Interface::WlSeat(_) => "wl_seat".spec_bytes(),
        Interface::WlPointer(_) => "wl_pointer".spec_bytes(),
        Interface::WlKeyboard(_) => "wl_keyboard".spec_bytes(),
        Interface::WlTouch(_) => "wl_touch".spec_bytes(),
        Interface::WlOutput(_) => "wl_output".spec_bytes(),
        Interface::WlRegion(_) => "wl_region".spec_bytes(),
        Interface::WlSubcompositor(_) => "wl_subcompositor".spec_bytes(),
        Interface::WlSubsurface(_) => "wl_subsurface".spec_bytes(),
        Interface::XdgWmBase(_) => "xdg_wm_base".spec_bytes(),
        Interface::XdgPositioner(_) => "xdg_positioner".spec_bytes(),
        Interface::XdgSurface(_) => "xdg_surface".spec_bytes(),
        Interface::XdgToplevel(_) => "xdg_toplevel".spec_bytes(),
        Interface::XdgPopup(_) => "xdg_popup".spec_bytes(),
    }
}

/// The advertised version of an interface.
pub open spec fn spec_interface_version(i: Interface) -> u32 {
    match i {
        Interface::WlDisplay(_) => 1,
        Interface::WlRegistry(_) => 1,
        Interface::WlCallback(_) => 1,
        Interface::WlCompositor(_) => 4,
        Interface::WlShmPool(_) => 1,
        Interface::WlShm(_) => 1,
        Interface::WlBuffer(_) => 1,
        Interface::WlDataOffer(_) => 3,
        Interface::WlDataSource(_) => 3,
        Interface::WlDataDevice(_) => 3,
        Interface::WlDataDeviceManager(_) => 3,
        Interface::WlShell(_) => 1,
        Interface::WlShellSurface(_) => 1,
        Interface::WlSurface(_) => 4,
        Interface::WlSeat(_) => 5,
        Interface::WlPointer(_) => 5,
        Interface::WlKeyboard(_) => 5,
        Interface::WlTouch(_) => 5,
        Interface::WlOutput(_) => 3,
        Interface::WlRegion(_) => 1,
        Interface::WlSubcompositor(_) => 1,
        Interface::WlSubsurface(_) => 1,
        Interface::XdgWmBase(_) => 2,
        Interface::XdgPositioner(_) => 2,
        Interface::XdgSurface(_) => 2,
        Interface::XdgToplevel(_) => 2,
        Interface::XdgPopup(_) => 2,
    }
}

impl Interface {
    /// The protocol name of this object's interface, as UTF-8 bytes.
    pub fn name_bytes(&self) -> (r: Vec<u8>)
        ensures
            r@ == spec_interface_name(*self),
    {
        match self {
            Interface::WlDisplay(_) => "wl_display".as_bytes_vec(),
            Interface::WlRegistry(_) => "wl_registry".as_bytes_vec(),
            Interface::WlCallback(_) => "wl_callback".as_bytes_vec(),
            Interface::WlCompositor(_) => "wl_compositor".as_bytes_vec(),
            Interface::WlShmPool(_) => "wl_shm_pool".as_bytes_vec(),
            Interface::WlShm(_) => "wl_shm".as_bytes_vec(),
            Interface::WlBuffer(_) => "wl_buffer".as_bytes_vec(),
            Interface::WlDataOffer(_) => "wl_data_offer".as_bytes_vec(),
            Interface::WlDataSource(_) => "wl_data_source".as_bytes_vec(),
            Interface::WlDataDevice(_) => "wl_data_device".as_bytes_vec(),
            Interface::WlDataDeviceManager(_) => "wl_data_device_manager".as_bytes_vec(),
            Interface::WlShell(_) => "wl_shell".as_bytes_vec(),
            Interface::WlShellSurface(_) => "wl_shell_surface".as_bytes_vec(),
            Interface::WlSurface(_) => "wl_surface".as_bytes_vec(),
            Interface::WlSeat(_) => "wl_seat".as_bytes_vec(),
            Interface::WlPointer(_) => "wl_pointer".as_bytes_vec(),
            Interface::WlKeyboard(_) => "wl_keyboard".as_bytes_vec(),
            Interface::WlTouch(_) => "wl_touch".as_bytes_vec(),
            Interface::WlOutput(_) => "wl_output".as_bytes_vec(),
            Interface::WlRegion(_) => "wl_region".as_bytes_vec(),
            Interface::WlSubcompositor(_) => "wl_subcompositor".as_bytes_vec(),
            Interface::WlSubsurface(_) => "wl_subsurface".as_bytes_vec(),
            Interface::XdgWmBase(_) => "xdg_wm_base".as_bytes_vec(),
            Interface::XdgPositioner(_) => "xdg_positioner".as_bytes_vec(),
            Interface::XdgSurface(_) => "xdg_surface".as_bytes_vec(),
            Interface::XdgToplevel(_) => "xdg_toplevel".as_bytes_vec(),
            Interface::XdgPopup(_) => "xdg_popup".as_bytes_vec(),
        }
    }

    /// The advertised version of this object's interface.
    pub fn version(&self) -> (r: u32)
        ensures
            r == spec_interface_version(*self),
    {
        match self {
            Interface::WlDisplay(_) => 1,
            Interface::WlRegistry(_) => 1,
            Interface::WlCallback(_) => 1,
            Interface::WlCompositor(_) => 4,
            Interface::WlShmPool(_) => 1,
            Interface::WlShm(_) => 1,
            Interface::WlBuffer(_) => 1,
            Interface::WlDataOffer(_) => 3,
            Interface::WlDataSource(_) => 3,
            Interface::WlDataDevice(_) => 3,
            Interface::WlDataDeviceManager(_) => 3,
            Interface::WlShell(_) => 1,
            Interface::WlShellSurface(_) => 1,
            Interface::WlSurface(_) => 4,
            Interface::WlSeat(_) => 5,
            Interface::WlPointer(_) => 5,
            Interface::WlKeyboard(_) => 5,
            Interface::WlTouch(_) => 5,
            Interface::WlOutput(_) => 3,
            Interface::WlRegion(_) => 1,
            Interface::WlSubcompositor(_) => 1,
            Interface::WlSubsurface(_) => 1,
            Interface::XdgWmBase(_) => 2,
            Interface::XdgPositioner(_) => 2,
            Interface::XdgSurface(_) => 2,
            Interface::XdgToplevel(_) => 2,
            Interface::XdgPopup(_) => 2,
        }
    }

    /// Whether this object is the shared registry interface.
    pub fn is_registry(&self) -> (r: bool)
        ensures
            r == (*self is WlRegistry),
    {
        match self {
            Interface::WlRegistry(_) => true,
            _ => false,
        }
    }
}

/// The argument signature of request `opcode` on an interface, or
/// `None` where the opcode is past the interface's request count.
pub open spec fn spec_request_sig(i: Interface, opcode: int) -> Option<Seq<ArgType>> {
    match i {
        Interface::WlDisplay(_) => if opcode == 0 {
            Some(seq![ArgType::NewId { nullable: false }])
        } else if opcode == 1 {
            Some(seq![ArgType::NewId { nullable: false }])
        } else {
            None
        },
        Interface::WlRegistry(_) => if opcode == 0 {
            Some(seq![ArgType::Uint, ArgType::Str { nullable: false }, ArgType::Uint, ArgType::NewId { nullable: false }])
        } else {
            None
        },
        Interface::WlCallback(_) => None,
        Interface::WlCompositor(_) => if opcode == 0 {
            Some(seq![ArgType::NewId { nullable: false }])
        } else if opcode == 1 {
            Some(seq![ArgType::NewId { nullable: false }])
        } else {
            None
        },
        Interface::WlShmPool(_) => if opcode == 0 {
            Some(seq![ArgType::NewId { nullable: false }, ArgType::Int, ArgType::Int, ArgType::Int, ArgType::Int, ArgType::Uint])
        } else if opcode == 1 {
            Some(Seq::<ArgType>::empty())
        } else if opcode == 2 {
            Some(seq![ArgType::Int])
        } else {
            None
        },
        Interface::WlShm(_) => if opcode == 0 {
            Some(seq![ArgType::NewId { nullable: false }, ArgType::Fd, ArgType::Int])
        } else {
            None
        },
        Interface::WlBuffer(_) => if opcode == 0 {
            Some(Seq::<ArgType>::empty())
        } else {
            None
        },
        Interface::WlDataOffer(_) => if opcode == 0 {
            Some(seq![ArgType::Uint, ArgType::Str { nullable: true }])
        } else if opcode == 1 {
            Some(seq![ArgType::Str { nullable: false }, ArgType::Fd])
        } else if opcode == 2 {
            Some(Seq::<ArgType>::empty())
        } else if opcode == 3 {
            Some(Seq::<ArgType>::empty())
        } else if opcode == 4 {
            Some(seq![ArgType::Uint, ArgType::Uint])
        } else {
            None
        },
        Interface::WlDataSource(_) => if opcode == 0 {
            Some(seq![ArgType::Str { nullable: false }])
        } else if opcode == 1 {
            Some(Seq::<ArgType>::empty())
        } else if opcode == 2 {
            Some(seq![ArgType::Uint])
        } else {
            None
        },
        Interface::WlDataDevice(_) => if opcode == 0 {
            Some(seq![ArgType::Object { nullable: true }, ArgType::Object { nullable: false }, ArgType::Object { nullable: true }, ArgType::Uint])
        } else if opcode == 1 {
            Some(seq![ArgType::Object { nullable: true }, ArgType::Uint])
        } else if opcode == 2 {
            Some(Seq::<ArgType>::empty())
        } else {
            None
        },
        Interface::WlDataDeviceManager(_) => if opcode == 0 {
            Some(seq![ArgType::NewId { nullable: false }])
        } else if opcode == 1 {
            Some(seq![ArgType::NewId { nullable: false }, ArgType::Object { nullable: false }])
        } else {
            None
        },
        Interface::WlShell(_) => if opcode == 0 {
            Some(seq![ArgType::NewId { nullable: false }, ArgType::Object { nullable: false }])
        } else {
            None
        },
        Interface::WlShellSurface(_) => if opcode == 0 {
            Some(seq![ArgType::Uint])
        } else if opcode == 1 {
            Some(seq![ArgType::Object { nullable: false }, ArgType::Uint])
        } else if opcode == 2 {
            Some(seq![ArgType::Object { nullable: false }, ArgType::Uint, ArgType::Uint])
        } else if opcode == 3 {
            Some(Seq::<ArgType>::empty())
        } else if opcode == 4 {
            Some(seq![ArgType::Object { nullable: false }, ArgType::Int, ArgType::Int, ArgType::Uint])
        } else if opcode == 5 {
            Some(seq![ArgType::Uint, ArgType::Uint, ArgType::Object { nullable: true }])
        } else if opcode == 6 {
            Some(seq![ArgType::Object { nullable: false }, ArgType::Uint, ArgType::Object { nullable: false }, ArgType::Int, ArgType::Int, ArgType::Uint])
        } else if opcode == 7 {
            Some(seq![ArgType::Object { nullable: true }])
        } else if opcode == 8 {
            Some(seq![ArgType::Str { nullable: false }])
        } else if opcode == 9 {
            Some(seq![ArgType::Str { nullable: false }])
        } else {
            None
        },
        Interface::WlSurface(_) => if opcode == 0 {
            Some(Seq::<ArgType>::empty())
        } else if opcode == 1 {
            Some(seq![ArgType::Object { nullable: true }, ArgType::Int, ArgType::Int])
        } else if opcode == 2 {
            Some(seq![ArgType::Int, ArgType::Int, ArgType::Int, ArgType::Int])
        } else if opcode == 3 {
            Some(seq![ArgType::NewId { nullable: false }])
        } else if opcode == 4 {
            Some(seq![ArgType::Object { nullable: true }])
        } else if opcode == 5 {
            Some(seq![ArgType::Object { nullable: true }])
        } else if opcode == 6 {
            Some(Seq::<ArgType>::empty())
        } else if opcode == 7 {
            Some(seq![ArgType::Int])
        } else if opcode == 8 {
            Some(seq![ArgType::Int])
        } else if opcode == 9 {
            Some(seq![ArgType::Int, ArgType::Int, ArgType::Int, ArgType::Int])
        } else if opcode == 10 {
            Some(seq![ArgType::Int, ArgType::Int])
        } else {
            None
        },
        Interface::WlSeat(_) => if opcode == 0 {
            Some(seq![ArgType::NewId { nullable: false }])
        } else if opcode == 1 {
            Some(seq![ArgType::NewId { nullable: false }])
        } else if opcode == 2 {
            Some(seq![ArgType::NewId { nullable: false }])
        } else if opcode == 3 {
            Some(Seq::<ArgType>::empty())
        } else {
            None
        },
        Interface::WlPointer(_) => if opcode == 0 {
            Some(seq![ArgType::Uint, ArgType::Object { nullable: true }, ArgType::Int, ArgType::Int])
        } else if opcode == 1 {
            Some(Seq::<ArgType>::empty())
        } else {
            None
        },
        Interface::WlKeyboard(_) => if opcode == 0 {
            Some(Seq::<ArgType>::empty())
        } else {
            None
        },
        Interface::WlTouch(_) => if opcode == 0 {
            Some(Seq::<ArgType>::empty())
        } else {
            None
        },
        Interface::WlOutput(_) => if opcode == 0 {
            Some(Seq::<ArgType>::empty())
        } else {
            None
        },
        Interface::WlRegion(_) => if opcode == 0 {
            Some(Seq::<ArgType>::empty())
        } else if opcode == 1 {
            Some(seq![ArgType::Int, ArgType::Int, ArgType::Int, ArgType::Int])
        } else if opcode == 2 {
            Some(seq![ArgType::Int, ArgType::Int, ArgType::Int, ArgType::Int])
        } else {
            None
        },
        Interface::WlSubcompositor(_) => if opcode == 0 {
            Some(Seq::<ArgType>::empty())
        } else if opcode == 1 {
            Some(seq![ArgType::NewId { nullable: false }, ArgType::Object { nullable: false }, ArgType::Object { nullable: false }])
        } else {
            None
        },
        Interface::WlSubsurface(_) => if opcode == 0 {
            Some(Seq::<ArgType>::empty())
        } else if opcode == 1 {
            Some(seq![ArgType::Int, ArgType::Int])
        } else if opcode == 2 {
            Some(seq![ArgType::Object { nullable: false }])
        } else if opcode == 3 {
            Some(seq![ArgType::Object { nullable: false }])
        } else if opcode == 4 {
            Some(Seq::<ArgType>::empty())
        } else if opcode == 5 {
            Some(Seq::<ArgType>::empty())
        } else {
            None
        },
        Interface::XdgWmBase(_) => if opcode == 0 {
            Some(Seq::<ArgType>::empty())
        } else if opcode == 1 {
            Some(seq![ArgType::NewId { nullable: false }])
        } else if opcode == 2 {
            Some(seq![ArgType::NewId { nullable: false }, ArgType::Object { nullable: false }])
        } else if opcode == 3 {
            Some(seq![ArgType::Uint])
        } else {
            None
        },
        Interface::XdgPositioner(_) => if opcode == 0 {
            Some(Seq::<ArgType>::empty())
        } else if opcode == 1 {
            Some(seq![ArgType::Int, ArgType::Int])
        } else if opcode == 2 {
            Some(seq![ArgType::Int, ArgType::Int, ArgType::Int, ArgType::Int])
        } else if opcode == 3 {
            Some(seq![ArgType::Uint])
        } else if opcode == 4 {
            Some(seq![ArgType::Uint])
        } else if opcode == 5 {
            Some(seq![ArgType::Uint])
        } else if opcode == 6 {
            Some(seq![ArgType::Int, ArgType::Int])
        } else if opcode == 7 {
            Some(Seq::<ArgType>::empty())
        } else if opcode == 8 {
            Some(seq![ArgType::Int, ArgType::Int])
        } else if opcode == 9 {
            Some(seq![ArgType::Uint])
        } else {
            None
        },
        Interface::XdgSurface(_) => if opcode == 0 {
            Some(Seq::<ArgType>::empty())
        } else if opcode == 1 {
            Some(seq![ArgType::NewId { nullable: false }])
        } else if opcode == 2 {
            Some(seq![ArgType::NewId { nullable: false }, ArgType::Object { nullable: true }, ArgType::Object { nullable: false }])
        } else if opcode == 3 {
            Some(seq![ArgType::Int, ArgType::Int, ArgType::Int, ArgType::Int])
        } else if opcode == 4 {
            Some(seq![ArgType::Uint])
        } else {
            None
        },
        Interface::XdgToplevel(_) => if opcode == 0 {
            Some(Seq::<ArgType>::empty())
        } else if opcode == 1 {
            Some(seq![ArgType::Object { nullable: true }])
        } else if opcode == 2 {
            Some(seq![ArgType::Str { nullable: false }])
        } else if opcode == 3 {
            Some(seq![ArgType::Str { nullable: false }])
        } else if opcode == 4 {
            Some(seq![ArgType::Object { nullable: false }, ArgType::Uint, ArgType::Int, ArgType::Int])
        } else if opcode == 5 {
            Some(seq![ArgType::Object { nullable: false }, ArgType::Uint])
        } else if opcode == 6 {
            Some(seq![ArgType::Object { nullable: false }, ArgType::Uint, ArgType::Uint])
        } else if opcode == 7 {
            Some(seq![ArgType::Int, ArgType::Int])
        } else if opcode == 8 {
            Some(seq![ArgType::Int, ArgType::Int])
        } else if opcode == 9 {
            Some(Seq::<ArgType>::empty())
        } else if opcode == 10 {
            Some(Seq::<ArgType>::empty())
        } else if opcode == 11 {
            Some(seq![ArgType::Object { nullable: true }])
        } else if opcode == 12 {
            Some(Seq::<ArgType>::empty())
        } else if opcode == 13 {
            Some(Seq::<ArgType>::empty())
        } else {
            None
        },
        Interface::XdgPopup(_) => if opcode == 0 {
            Some(Seq::<ArgType>::empty())
        } else if opcode == 1 {
            Some(seq![ArgType::Object { nullable: false }, ArgType::Uint])
        } else if opcode == 2 {
            Some(seq![ArgType::Object { nullable: false }, ArgType::Uint])
        } else {
            None
        },
    }
}

impl Interface {
    /// The argument signature of request `opcode` on this object's
    /// interface, or `None` where the opcode is out of range.
    pub fn request_signature(&self, opcode: u16) -> (r: Option<Vec<ArgType>>)
        ensures
            match r {
                Some(v) => spec_request_sig(*self, opcode as int) == Some(v@),
                None => spec_request_sig(*self, opcode as int) is None,
            },
    {
        match self {
            Interface::WlDisplay(_) => match opcode {
                0 => Some(vec![ArgType::NewId { nullable: false }]),
                1 => Some(vec![ArgType::NewId { nullable: false }]),
                _ => None,
            },
            Interface::WlRegistry(_) => match opcode {
                0 => Some(vec![ArgType::Uint, ArgType::Str { nullable: false }, ArgType::Uint, ArgType::NewId { nullable: false }]),
                _ => None,
            },
            Interface::WlCallback(_) => None,
            Interface::WlCompositor(_) => match opcode {
                0 => Some(vec![ArgType::NewId { nullable: false }]),
                1 => Some(vec![ArgType::NewId { nullable: false }]),
                _ => None,
            },
            Interface::WlShmPool(_) => match opcode {
                0 => Some(vec![ArgType::NewId { nullable: false }, ArgType::Int, ArgType::Int, ArgType::Int, ArgType::Int, ArgType::Uint]),
                1 => Some(Vec::new()),
                2 => Some(vec![ArgType::Int]),
                _ => None,
            },
            Interface::WlShm(_) => match opcode {
                0 => Some(vec![ArgType::NewId { nullable: false }, ArgType::Fd, ArgType::Int]),
                _ => None,
            },
            Interface::WlBuffer(_) => match opcode {
                0 => Some(Vec::new()),
                _ => None,
            },
            Interface::WlDataOffer(_) => match opcode {
                0 => Some(vec![ArgType::Uint, ArgType::Str { nullable: true }]),
                1 => Some(vec![ArgType::Str { nullable: false }, ArgType::Fd]),
                2 => Some(Vec::new()),
                3 => Some(Vec::new()),
                4 => Some(vec![ArgType::Uint, ArgType::Uint]),
                _ => None,
            },
            Interface::WlDataSource(_) => match opcode {
                0 => Some(vec![ArgType::Str { nullable: false }]),
                1 => Some(Vec::new()),
                2 => Some(vec![ArgType::Uint]),
                _ => None,
            },
            Interface::WlDataDevice(_) => match opcode {
                0 => Some(vec![ArgType::Object { nullable: true }, ArgType::Object { nullable: false }, ArgType::Object { nullable: true }, ArgType::Uint]),
                1 => Some(vec![ArgType::Object { nullable: true }, ArgType::Uint]),
                2 => Some(Vec::new()),
                _ => None,
            },
            Interface::WlDataDeviceManager(_) => match opcode {
                0 => Some(vec![ArgType::NewId { nullable: false }]),
                1 => Some(vec![ArgType::NewId { nullable: false }, ArgType::Object { nullable: false }]),
                _ => None,
            },
            Interface::WlShell(_) => match opcode {
                0 => Some(vec![ArgType::NewId { nullable: false }, ArgType::Object { nullable: false }]),
                _ => None,
            },
            Interface::WlShellSurface(_) => match opcode {
                0 => Some(vec![ArgType::Uint]),
                1 => Some(vec![ArgType::Object { nullable: false }, ArgType::Uint]),
                2 => Some(vec![ArgType::Object { nullable: false }, ArgType::Uint, ArgType::Uint]),
                3 => Some(Vec::new()),
                4 => Some(vec![ArgType::Object { nullable: false }, ArgType::Int, ArgType::Int, ArgType::Uint]),
                5 => Some(vec![ArgType::Uint, ArgType::Uint, ArgType::Object { nullable: true }]),
                6 => Some(vec![ArgType::Object { nullable: false }, ArgType::Uint, ArgType::Object { nullable: false }, ArgType::Int, ArgType::Int, ArgType::Uint]),
                7 => Some(vec![ArgType::Object { nullable: true }]),
                8 => Some(vec![ArgType::Str { nullable: false }]),
                9 => Some(vec![ArgType::Str { nullable: false }]),
                _ => None,
            },
            Interface::WlSurface(_) => match opcode {
                0 => Some(Vec::new()),
                1 => Some(vec![ArgType::Object { nullable: true }, ArgType::Int, ArgType::Int]),
                2 => Some(vec![ArgType::Int, ArgType::Int, ArgType::Int, ArgType::Int]),
                3 => Some(vec![ArgType::NewId { nullable: false }]),
                4 => Some(vec![ArgType::Object { nullable: true }]),
                5 => Some(vec![ArgType::Object { nullable: true }]),
                6 => Some(Vec::new()),
                7 => Some(vec![ArgType::Int]),
                8 => Some(vec![ArgType::Int]),
                9 => Some(vec![ArgType::Int, ArgType::Int, ArgType::Int, ArgType::Int]),
                10 => Some(vec![ArgType::Int, ArgType::Int]),
                _ => None,
            },
            Interface::WlSeat(_) => match opcode {
                0 => Some(vec![ArgType::NewId { nullable: false }]),
                1 => Some(vec![ArgType::NewId { nullable: false }]),
                2 => Some(vec![ArgType::NewId { nullable: false }]),
                3 => Some(Vec::new()),
                _ => None,
            },
            Interface::WlPointer(_) => match opcode {
                0 => Some(vec![ArgType::Uint, ArgType::Object { nullable: true }, ArgType::Int, ArgType::Int]),
                1 => Some(Vec::new()),
                _ => None,
            },
            Interface::WlKeyboard(_) => match opcode {
                0 => Some(Vec::new()),
                _ => None,
            },
            Interface::WlTouch(_) => match opcode {
                0 => Some(Vec::new()),
                _ => None,
            },
            Interface::WlOutput(_) => match opcode {
                0 => Some(Vec::new()),
                _ => None,
            },
            Interface::WlRegion(_) => match opcode {
                0 => Some(Vec::new()),
                1 => Some(vec![ArgType::Int, ArgType::Int, ArgType::Int, ArgType::Int]),
                2 => Some(vec![ArgType::Int, ArgType::Int, ArgType::Int, ArgType::Int]),
                _ => None,
            },
            Interface::WlSubcompositor(_) => match opcode {
                0 => Some(Vec::new()),
                1 => Some(vec![ArgType::NewId { nullable: false }, ArgType::Object { nullable: false }, ArgType::Object { nullable: false }]),
                _ => None,
            },
            Interface::WlSubsurface(_) => match opcode {
                0 => Some(Vec::new()),
                1 => Some(vec![ArgType::Int, ArgType::Int]),
                2 => Some(vec![ArgType::Object { nullable: false }]),
                3 => Some(vec![ArgType::Object { nullable: false }]),
                4 => Some(Vec::new()),
                5 => Some(Vec::new()),
                _ => None,
            },
            Interface::XdgWmBase(_) => match opcode {
                0 => Some(Vec::new()),
                1 => Some(vec![ArgType::NewId { nullable: false }]),
                2 => Some(vec![ArgType::NewId { nullable: false }, ArgType::Object { nullable: false }]),
                3 => Some(vec![ArgType::Uint]),
                _ => None,
            },
            Interface::XdgPositioner(_) => match opcode {
                0 => Some(Vec::new()),
                1 => Some(vec![ArgType::Int, ArgType::Int]),
                2 => Some(vec![ArgType::Int, ArgType::Int, ArgType::Int, ArgType::Int]),
                3 => Some(vec![ArgType::Uint]),
                4 => Some(vec![ArgType::Uint]),
                5 => Some(vec![ArgType::Uint]),
                6 => Some(vec![ArgType::Int, ArgType::Int]),
                7 => Some(Vec::new()),
                8 => Some(vec![ArgType::Int, ArgType::Int]),
                9 => Some(vec![ArgType::Uint]),
                _ => None,
            },
            Interface::XdgSurface(_) => match opcode {
                0 => Some(Vec::new()),
                1 => Some(vec![ArgType::NewId { nullable: false }]),
                2 => Some(vec![ArgType::NewId { nullable: false }, ArgType::Object { nullable: true }, ArgType::Object { nullable: false }]),
                3 => Some(vec![ArgType::Int, ArgType::Int, ArgType::Int, ArgType::Int]),
                4 => Some(vec![ArgType::Uint]),
                _ => None,
            },
            Interface::XdgToplevel(_) => match opcode {
                0 => Some(Vec::new()),
                1 => Some(vec![ArgType::Object { nullable: true }]),
                2 => Some(vec![ArgType::Str { nullable: false }]),
                3 => Some(vec![ArgType::Str { nullable: false }]),
                4 => Some(vec![ArgType::Object { nullable: false }, ArgType::Uint, ArgType::Int, ArgType::Int]),
                5 => Some(vec![ArgType::Object { nullable: false }, ArgType::Uint]),
                6 => Some(vec![ArgType::Object { nullable: false }, ArgType::Uint, ArgType::Uint]),
                7 => Some(vec![ArgType::Int, ArgType::Int]),
                8 => Some(vec![ArgType::Int, ArgType::Int]),
                9 => Some(Vec::new()),
                10 => Some(Vec::new()),
                11 => Some(vec![ArgType::Object { nullable: true }]),
                12 => Some(Vec::new()),
                13 => Some(Vec::new()),
                _ => None,
            },
            Interface::XdgPopup(_) => match opcode {
                0 => Some(Vec::new()),
                1 => Some(vec![ArgType::Object { nullable: false }, ArgType::Uint]),
                2 => Some(vec![ArgType::Object { nullable: false }, ArgType::Uint]),
                _ => None,
            },
        }
    }
}

/// The argument list of a `wl_callback.done` event.
pub open spec fn spec_done_args(serial: u32) -> Seq<ArgModel> {
    seq![ArgModel::Uint(serial)]
}

/// The argument list of a `wl_registry.global` event.
pub open spec fn spec_global_args(name: u32, iface: Seq<u8>, version: u32) -> Seq<ArgModel> {
    seq![ArgModel::Uint(name), ArgModel::Str(Some(iface)), ArgModel::Uint(version)]
}

/// The argument list of a `wl_registry.global_remove` event.
pub open spec fn spec_global_remove_args(name: u32) -> Seq<ArgModel> {
    seq![ArgModel::Uint(name)]
}

/// Emit `wl_callback.done(serial)` to the callback object `self_id`.
///
/// The frame is 12 bytes; `OutOfMemory` exactly when it does not fit,
/// leaving the buffer untouched.
pub fn emit_done(send: &mut MessageBuf<Write>, self_id: ObjectId, serial: u32) -> (r: Result<
    (),
    MessageError,
>)
    requires
        old(send).cap_ok(),
        old(send).fds_ok(),
    ensures
        final(send).cap_ok(),
        final(send).fds_ok(),
        final(send).fd_seq() == old(send).fd_seq(),
        old(send).bytes().len() + 12 <= BUF_SIZE ==> r is Ok && final(send).bytes() == old(
            send,
        ).bytes() + spec_frame_bytes(self_id.spec_raw(), 0, spec_done_args(serial)),
        old(send).bytes().len() + 12 > BUF_SIZE ==> r == Err::<(), MessageError>(
            MessageError::OutOfMemory,
        ) && *final(send) == *old(send),
{
    proof {
        lemma_args_one_word(spec_done_args(serial));
    }
    let mut args: Vec<ArgValue> = Vec::new();
    args.push(ArgValue::Uint(serial));
    proof {
        assert(crate::wire::arg_models(args@) =~= spec_done_args(serial));
    }
    emit_message(send, self_id.raw(), 0, &args)
}

/// Emit `wl_registry.global(name, interface, version)` to the registry
/// binding `self_id`.
pub fn emit_global(
    send: &mut MessageBuf<Write>,
    self_id: ObjectId,
    name: u32,
    iface: &Vec<u8>,
    version: u32,
) -> (r: Result<(), MessageError>)
    requires
        old(send).cap_ok(),
        old(send).fds_ok(),
    ensures
        final(send).cap_ok(),
        final(send).fds_ok(),
        final(send).fd_seq() == old(send).fd_seq(),
        ({
            let vs = spec_global_args(name, iface@, version);
            if old(send).bytes().len() + 8 + spec_encode_args(vs).len() <= BUF_SIZE {
                r is Ok && final(send).bytes() == old(send).bytes() + spec_frame_bytes(
                    self_id.spec_raw(),
                    0,
                    vs,
                )
            } else {
                r == Err::<(), MessageError>(MessageError::OutOfMemory) && *final(send) == *old(
                    send,
                )
            }
        }),
{
    let ghost vs = spec_global_args(name, iface@, version);
    proof {
        lemma_global_args_fds(vs);
    }
    let mut args: Vec<ArgValue> = Vec::new();
    args.push(ArgValue::Uint(name));
    let mut bytes: Vec<u8> = Vec::new();
    bytes.extend_from_slice(iface.as_slice());
    proof {
        assert(bytes@ =~= iface@);
    }
    args.push(ArgValue::Str(Some(bytes)));
    args.push(ArgValue::Uint(version));
    proof {
        assert(crate::wire::arg_models(args@) =~= vs);
    }
    emit_message(send, self_id.raw(), 0, &args)
}

/// Emit `wl_registry.global_remove(name)` to the registry binding
/// `self_id`.
pub fn emit_global_remove(send: &mut MessageBuf<Write>, self_id: ObjectId, name: u32) -> (r:
    Result<(), MessageError>)
    requires
        old(send).cap_ok(),
        old(send).fds_ok(),
    ensures
        final(send).cap_ok(),
        final(send).fds_ok(),
        final(send).fd_seq() == old(send).fd_seq(),
        old(send).bytes().len() + 12 <= BUF_SIZE ==> r is Ok && final(send).bytes() == old(
            send,
        ).bytes() + spec_frame_bytes(self_id.spec_raw(), 1, spec_global_remove_args(name)),
        old(send).bytes().len() + 12 > BUF_SIZE ==> r == Err::<(), MessageError>(
            MessageError::OutOfMemory,
        ) && *final(send) == *old(send),
{
    proof {
        lemma_args_one_word(spec_global_remove_args(name));
    }
    let mut args: Vec<ArgValue> = Vec::new();
    args.push(ArgValue::Uint(name));
    proof {
        assert(crate::wire::arg_models(args@) =~= spec_global_remove_args(name));
    }
    emit_message(send, self_id.raw(), 1, &args)
}

/// A `global` event's arguments encode to a length fixed by the
/// interface name alone: the `name` and `version` words do not move it.
pub proof fn lemma_global_args_len(name: u32, iface: Seq<u8>, version: u32)
    ensures
        spec_encode_args(spec_global_args(name, iface, version)).len() == 12
            + crate::wire::spec_padded(iface.len() as int + 1),
{
    let vs = spec_global_args(name, iface, version);
    crate::wire::lemma_padded_bounds(iface.len() as int + 1);
    assert(vs.drop_first().drop_first().drop_first() =~= Seq::<ArgModel>::empty());
    assert(vs.drop_first()[0] == vs[1]);
    assert(vs.drop_first().drop_first()[0] == vs[2]);
    assert(spec_encode_args(Seq::<ArgModel>::empty()) == Seq::<u8>::empty());
    assert(spec_encode_args(vs) == crate::wire::spec_encode_arg(vs[0]) + spec_encode_args(
        vs.drop_first(),
    ));
    assert(spec_encode_args(vs.drop_first()) == crate::wire::spec_encode_arg(vs[1])
        + spec_encode_args(vs.drop_first().drop_first()));
    assert(spec_encode_args(vs.drop_first().drop_first()) == crate::wire::spec_encode_arg(vs[2])
        + spec_encode_args(vs.drop_first().drop_first().drop_first()));
    assert(crate::wire::spec_encode_arg(vs[0]).len() == 4);
    assert(crate::wire::spec_encode_arg(vs[2]).len() == 4);
    assert(crate::wire::spec_encode_arg(vs[1]).len() == 4 + crate::wire::spec_padded(
        iface.len() as int + 1,
    ));
}

/// A single `Uint` argument encodes as one word and stages no fds.
proof fn lemma_args_one_word(vs: Seq<ArgModel>)
    requires
        vs.len() == 1,
        vs[0] is Uint,
    ensures
        spec_encode_args(vs).len() == 4,
        spec_arg_fds(vs) == Seq::<i32>::empty(),
{
    assert(vs.drop_first() =~= Seq::<ArgModel>::empty());
    assert(spec_encode_args(Seq::<ArgModel>::empty()) == Seq::<u8>::empty());
    assert(spec_arg_fds(Seq::<ArgModel>::empty()) == Seq::<i32>::empty());
    assert(spec_encode_args(vs) =~= crate::wire::spec_encode_arg(vs[0]));
    assert(spec_arg_fds(vs) =~= Seq::<i32>::empty());
}

/// A `global` event's arguments stage no fds.
proof fn lemma_global_args_fds(vs: Seq<ArgModel>)
    requires
        vs.len() == 3,
        !(vs[0] is Fd),
        !(vs[1] is Fd),
        !(vs[2] is Fd),
    ensures
        spec_arg_fds(vs) == Seq::<i32>::empty(),
{
    assert(vs.drop_first().drop_first().drop_first() =~= Seq::<ArgModel>::empty());
    assert(spec_arg_fds(Seq::<ArgModel>::empty()) == Seq::<i32>::empty());
    assert(vs.drop_first()[0] == vs[1]);
    assert(vs.drop_first().drop_first()[0] == vs[2]);
    assert(spec_arg_fds(vs.drop_first().drop_first()) =~= Seq::<i32>::empty());
    assert(spec_arg_fds(vs.drop_first()) =~= Seq::<i32>::empty());
    assert(spec_arg_fds(vs) =~= Seq::<i32>::empty());
}

} // verus!
