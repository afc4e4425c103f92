//! What the plugin says of itself to the gateway that loads it.
use vstd::prelude::*;

verus! {

/// Identifier of the plugin.
pub const PLUGIN_ID: &'static str = "dev.mcpg.log.syslog";

/// Name of the plugin.
pub const PLUGIN_NAME: &'static str = "Syslog Log Sink";

/// What a plugin is for.
#[derive(Debug, Clone, Copy, PartialEq, Eq, Structural)]
pub enum PluginClass {
    LogSink,
}

/// What a plugin has to be granted.
#[derive(Debug, Clone, Copy, PartialEq, Eq, Structural)]
pub enum Capability {
    NetworkOutbound,
}

/// What a plugin says of itself.
#[derive(Debug)]
pub struct PluginManifest {
    pub id: String,
    pub name: String,
    pub plugin_class: PluginClass,
    pub required_capabilities: Vec<Capability>,
}

impl PluginManifest {
    /// Whether this is the manifest of the syslog sink: a log sink that sends over the network.
    pub open spec fn is_syslog(self) -> bool {
        &&& self.id@ == PLUGIN_ID@
        &&& self.name@ == PLUGIN_NAME@
        &&& self.plugin_class == PluginClass::LogSink
        &&& self.required_capabilities@ == seq![Capability::NetworkOutbound]
    }

    /// The manifest of the syslog sink.
    pub fn syslog() -> (r: PluginManifest)
        ensures
            r.is_syslog(),
    {
        let required_capabilities = vec![Capability::NetworkOutbound];
        assert(required_capabilities@ =~= seq![Capability::NetworkOutbound]);
        PluginManifest {
            id: PLUGIN_ID.to_owned(),
            name: PLUGIN_NAME.to_owned(),
            plugin_class: PluginClass::LogSink,
            required_capabilities,
        }
    }
}

/// The manifest of the syslog sink names this plugin, says that it is a log sink, and asks for the
/// network and for nothing else.
pub proof fn law_manifest_asks_for_the_network(manifest: PluginManifest)
    ensures
        manifest.is_syslog() <==> {
            &&& manifest.id@ == "dev.mcpg.log.syslog"@
            &&& manifest.name@ == "Syslog Log Sink"@
            &&& manifest.plugin_class == PluginClass::LogSink
            &&& manifest.required_capabilities@.len() == 1
            &&& manifest.required_capabilities@[0] == Capability::NetworkOutbound
        },
{
    let capabilities = manifest.required_capabilities@;
    if capabilities.len() == 1 && capabilities[0] == Capability::NetworkOutbound {
        assert(capabilities =~= seq![Capability::NetworkOutbound]);
    }
}

} // verus!
