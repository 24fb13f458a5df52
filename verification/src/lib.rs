//! The logic of a supervisor that shows USB devices implemented by unprivileged workers.
//!
//! A worker publishes a [`UsbPersonality`], which it builds from its platform's configuration
//! calls ([`native`]) or discovers from a firmware's own descriptors ([`discovery`]). The
//! supervisor validates it, projects it to Linux FunctionFS and ConfigFS ([`usb_personality`],
//! [`functionfs`], [`gadget`]) and carries it through its life ([`supervisor`], [`ep0`],
//! [`serve`]). Reading and writing files, sockets and devices is left to the program around
//! this library.

pub mod bytes;
pub mod capability_laws;
pub mod cli;
pub mod cli_laws;
pub mod conversation;
pub mod descriptor_laws;
pub mod discovery;
pub mod discovery_laws;
pub mod ep0;
pub mod ep0_laws;
pub mod firmware_laws;
pub mod format;
pub mod format_laws;
pub mod functionfs;
pub mod gadget;
pub mod gadget_laws;
pub mod gpio;
pub mod gpio_laws;
pub mod handshake;
pub mod inspection_laws;
pub mod launch;
pub mod launch_laws;
pub mod lifecycle;
pub mod microsoft;
pub mod native;
pub mod native_laws;
pub mod os_laws;
pub mod paths;
pub mod persistence;
pub mod persistence_laws;
pub mod personality;
pub mod picture_laws;
pub mod plan_laws;
pub mod profile;
pub mod profile_laws;
pub mod projection_laws;
pub mod protocol;
pub mod refusal_laws;
pub mod serve;
pub mod service_laws;
pub mod sets;
pub mod supervisor;
pub mod supervisor_laws;
pub mod survey_laws;
pub mod talk_laws;
pub mod text;
pub mod text_laws;
pub mod usb_personality;
pub mod view_laws;
pub mod walk_laws;
pub mod windows_laws;
pub mod wire_laws;
pub mod worker_laws;

pub use conversation::SetupPacket;
pub use discovery::discover;
pub use lifecycle::{EndpointLifecycle, UsbBusEvent, USB_BUS_EVENT_BODY_LENGTH};
pub use native::UgspPersonalityBuilder;
pub use personality::{
    MicrosoftCompatibleId, MicrosoftOs10, MicrosoftRegistryProperty, StringDescriptor,
    UsbPersonality, UsbPersonalityBuilder, UsbSpeed, WebUsb, PERSONALITY_SCHEMA,
};
