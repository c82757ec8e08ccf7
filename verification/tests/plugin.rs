use clustered_lighting::plugin::PbrPlugin;

#[test]
fn default_plugin_enables_prepass_and_deferred_lighting() {
    let plugin = PbrPlugin::default();
    assert!(plugin.prepass_enabled);
    assert!(plugin.add_default_deferred_lighting_plugin);
}
