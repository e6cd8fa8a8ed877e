//! What a protocol for carrying Ethernet frames over USB has to offer.

use crate::bytes::overlay;
use crate::error::{too_small, TetherError, TetherErrorView};
use vstd::prelude::*;

verus! {

/// What to do next to set up the device.
#[derive(Debug)]
pub enum InitAction {
    /// Send this control message, wait so many milliseconds, and read the reply.
    Send { message: Vec<u8>, delay_ms: u64 },
    /// The device is ready; whether it has taken every setting.
    Ready { complete: bool },
    /// The device cannot be used.
    Failed(TetherError),
}

/// An [`InitAction`] with its parts by their views.
pub enum InitActionView {
    Send { message: Seq<u8>, delay_ms: u64 },
    Ready { complete: bool },
    Failed(TetherErrorView),
}

impl View for InitAction {
    type V = InitActionView;

    open spec fn view(&self) -> InitActionView {
        match *self {
            InitAction::Send { message, delay_ms } => InitActionView::Send {
                message: message@,
                delay_ms,
            },
            InitAction::Ready { complete } => InitActionView::Ready { complete },
            InitAction::Failed(e) => InitActionView::Failed(e@),
        }
    }
}

/// The frames of a list, each as a sequence.
pub open spec fn frame_views(frames: Seq<Vec<u8>>) -> Seq<Seq<u8>> {
    frames.map_values(|v: Vec<u8>| v@)
}

/// A protocol for carrying Ethernet frames over USB.
pub trait ProtocolDriver: Sized + Send {
    /// The bytes that carry a frame.
    spec fn wrapped(&self, eth: Seq<u8>) -> Seq<u8>;

    /// The frames that bytes from the device carry.
    spec fn unwrapped(&self, usb_data: Seq<u8>) -> Seq<Seq<u8>>;

    /// Our hardware address.
    spec fn address(&self) -> [u8; 6];

    /// Whether a frame of this length can be wrapped.
    spec fn fits(&self, len: nat) -> bool;

    /// Whether the driver can send one more control message.
    spec fn can_send(&self) -> bool;

    /// Whether the driver waits for a reply while the device is set up, and can
    /// send what follows on it.
    spec fn awaits_reply(&self) -> bool;

    fn name(&self) -> &str;

    /// Begins to set up the device.
    fn init(&mut self) -> (r: InitAction)
        requires
            old(self).can_send(),
    ;

    /// Goes on with setting up the device, after a reply.
    fn init_reply(&mut self, reply: &[u8]) -> (r: InitAction)
        requires
            old(self).awaits_reply(),
    ;

    /// Our hardware address.
    fn mac(&self) -> (r: [u8; 6])
        ensures
            r == self.address(),
    ;

    /// Writes the bytes that carry a frame at the start of `out`.
    fn wrap_frame(&self, eth: &[u8], out: &mut [u8]) -> (r: Result<usize, TetherError>)
        requires
            self.fits(eth@.len()),
        ensures
            old(out)@.len() >= self.wrapped(eth@).len() ==> {
                &&& r matches Ok(n) && n == self.wrapped(eth@).len()
                &&& final(out)@ == overlay(old(out)@, 0, self.wrapped(eth@))
            },
            old(out)@.len() < self.wrapped(eth@).len() ==> {
                &&& r matches Err(e) && e@ == too_small(self.wrapped(eth@).len(), old(out)@.len())
                &&& final(out)@ == old(out)@
            },
    ;

    /// The frames that bytes from the device carry.
    fn unwrap_data(&self, usb_data: &[u8]) -> (r: Vec<Vec<u8>>)
        ensures
            frame_views(r@) == self.unwrapped(usb_data@),
    ;

    /// The control message that keeps the device going, if the protocol has one.
    fn keepalive(&mut self) -> (r: Option<Vec<u8>>)
        requires
            old(self).can_send(),
        default_ensures
            r is None,
            *final(self) == *old(self),
    {
        None
    }
}

/// A list of frames has a view for each of them, in its place.
pub proof fn lemma_frames_in_place(frames: Seq<Vec<u8>>)
    ensures
        frame_views(frames).len() == frames.len(),
        forall|i: int| 0 <= i < frames.len() ==> #[trigger] frame_views(frames)[i] == frames[i]@,
{
}

/// The views of actions hold what the actions hold.
pub proof fn lemma_init_action_views(bytes: Vec<u8>, ms: u64, complete: bool, e: TetherError)
    ensures
        (InitAction::Send { message: bytes, delay_ms: ms })@ == (InitActionView::Send {
            message: bytes@,
            delay_ms: ms,
        }),
        (InitAction::Ready { complete })@ == (InitActionView::Ready { complete }),
        InitAction::Failed(e)@ == InitActionView::Failed(e@),
{
}

} // verus!
