//! Push-based cache invalidation.
//!
//! On its own the daemon is purely reactive: the guest decides when to revalidate what it has
//! cached, and a change on the host becomes visible only when a time-out expires. With push-based
//! invalidation the daemon watches the shared directory and tells the guest as soon as it sees a
//! change.
//!
//! ```text
//!   host events -> watcher -> translator -> notifier -> guest
//! ```
//!
//! * [`watcher`] turns raw events into a normalized stream, with an explicit signal for events
//!   that were lost.
//! * [`translate`] resolves those events through the dentry index and decides which notifications
//!   they call for.
//! * [`notifier`] frames notifications and hands them out.
//! * [`pipeline`] puts the parts together.
//!
//! The watcher knows nothing of the wire format, the notifier nothing of host filesystems, and the
//! translator does no I/O.

pub mod event_laws;
pub mod notifier;
pub mod notifier_laws;
pub mod pipeline;
pub mod translate;
pub mod translate_laws;
pub mod watcher;
pub mod watcher_laws;

pub use notifier::{Notification, Notifier, NotifierError};
pub use translate::Translator;
pub use watcher::{HostEvent, HostEventKind};
