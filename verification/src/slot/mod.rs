mod config;
pub use config::SlotConfig;

mod event;
pub use event::SlotPacket;

mod process;
pub use process::{routed, Route, SlotProcessResult};

pub mod worker;

mod traits;
pub use traits::{Slot, StartLog, WorkerStart};

pub mod sync;
pub use sync::SyncSlotProcessor;

mod builder;
pub use builder::SlotBuilder;

mod handle;
pub use handle::SlotHandle;

mod sequential;
pub use sequential::SequentialSlot;
