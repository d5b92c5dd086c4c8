use vstd::prelude::*;
use crate::plugin::{valid_plugin_name, Plugin};
use crate::resources::ResourceInit;

verus! {

pub struct PacketReciver();

pub struct PacketSender();

/// The connection plugin: provides the packet endpoints as resources, needing
/// nothing from anyone else. The two initialization functions are adapted
/// directly, so their zero arity shows in the contract.
pub fn init_plugin() -> (p: Plugin)
    ensures
        p.spec_name() == "feather_core_protocol_connection"@,
        p.resource_initialisers@.len() == 2,
        forall|k: int|
            0 <= k < p.resource_initialisers@.len() ==> (#[trigger] p.resource_initialisers@[k])@
                .owner == "feather_core_protocol_connection"@,
        forall|k: int|
            0 <= k < p.resource_initialisers@.len() ==> (#[trigger] p.resource_initialisers@[k])@
                .creates.len() == 1,
        forall|k: int|
            0 <= k < p.resource_initialisers@.len() ==> (#[trigger] p.resource_initialisers@[k])@
                .reqs.len() == 0,
        p.resource_requirements@.len() == 0,
        p.used_system_labels@.len() == 0,
{
    let r = Plugin::new("feather_core_protocol_connection");
    match r {
        Ok(plugin) => {
            let mut plugin = plugin;
            let name = plugin.name();
            let receiver_init = (|| PacketReciver()).to_box(name);
            let sender_init = (|| PacketSender()).to_box(name);
            plugin.resource_initialisers.push(receiver_init);
            plugin.resource_initialisers.push(sender_init);
            plugin
        },
        Err(_) => {
            proof {
                reveal_strlit("feather_core_protocol_connection");
                assert(valid_plugin_name("feather_core_protocol_connection"@));
            }
            vstd::pervasive::unreached()
        },
    }
}

} // verus!
