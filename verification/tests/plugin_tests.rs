//! The plugin chain: registration, attachment, and consulting the chain
//! for a canonicalized-resource override.

use aliyun_oss_client::client::Client;
use aliyun_oss_client::errors::OssError;
use aliyun_oss_client::plugin::Plugin;
use aliyun_oss_client::plugin::PluginRegistry;
use aliyun_oss_client::types::KeyId;
use aliyun_oss_client::types::KeySecret;

/// A configurable plugin for the tests: fixed name, a fixed claim
/// decision, a fixed override, and an optional attachment failure.
struct FakePlugin {
    name: &'static str,
    applies: bool,
    canonical: Option<&'static str>,
    attach_error: Option<&'static str>,
}

impl FakePlugin {
    fn named(name: &'static str) -> Self {
        Self {
            name,
            applies: false,
            canonical: None,
            attach_error: None,
        }
    }
}

impl Plugin for FakePlugin {
    fn name(&self) -> String {
        self.name.to_owned()
    }

    fn applies_to(&self, _url: &str) -> bool {
        self.applies
    }

    fn canonicalize(&self, _url: &str) -> Option<String> {
        self.canonical.map(|s| s.to_owned())
    }

    fn on_attach(&mut self, _client: &mut Client<FakePlugin>) -> Result<(), OssError> {
        match self.attach_error {
            Some(message) => Err(OssError::Input(message.to_owned())),
            None => Ok(()),
        }
    }
}

fn test_client() -> Client<FakePlugin> {
    Client::new(
        KeyId::new("foo1".to_owned()),
        KeySecret::new("foo2".to_owned()),
    )
}

#[test]
fn plugin_default_return() {
    let mut plugin = FakePlugin::named("my_plugin");
    let mut client = test_client();

    assert_eq!(plugin.name(), "my_plugin");

    let res = plugin.on_attach(&mut client);
    assert!(res.is_ok());

    let url = "http://localhost";
    let res2 = plugin.canonicalize(url);
    assert!(res2.is_none());

    let b = plugin.applies_to(url);
    assert_eq!(b, false);
}

#[test]
fn test_insert() {
    let mut plugin_store = PluginRegistry::default();
    let plugin = FakePlugin::named("foo_plugin");

    plugin_store.insert(plugin);

    assert_eq!(plugin_store.len(), 1);
    assert!(plugin_store.contains_name("foo_plugin"));
    assert!(plugin_store.get_by_name("foo_plugin").is_some());
    assert_eq!(
        plugin_store.get_by_name("foo_plugin").unwrap().name(),
        "foo_plugin"
    );
}

#[test]
fn register_attaches_at_once() {
    let mut plugin_store = PluginRegistry::default();
    let mut client = test_client();

    let good = FakePlugin::named("good_plugin");
    assert!(plugin_store.register(good, &mut client).is_ok());
    assert_eq!(plugin_store.len(), 1);

    let mut bad = FakePlugin::named("bad_plugin");
    bad.attach_error = Some("refused");
    let res = plugin_store.register(bad, &mut client);
    assert!(matches!(res, Err(OssError::Plugin(p)) if p.name == "bad_plugin"));
    // A failed registration leaves the registry as it stood.
    assert_eq!(plugin_store.len(), 1);
}

#[test]
fn client_owns_its_registry() {
    let client = test_client();
    assert_eq!(client.plugins.len(), 0);

    let good = FakePlugin::named("good_plugin");
    let client = client.register_plugin(good).unwrap();
    assert_eq!(client.plugins.len(), 1);
    assert!(client.plugins.contains_name("good_plugin"));

    let mut bad = FakePlugin::named("bad_plugin");
    bad.attach_error = Some("refused");
    let res = client.register_plugin(bad);
    assert!(matches!(res, Err(OssError::Plugin(p)) if p.name == "bad_plugin"));
}

#[test]
fn test_initialize() {
    let mut plugin_store = PluginRegistry::default();
    let plugin = FakePlugin::named("foo_plugin");

    plugin_store.insert(plugin);

    let mut client = test_client();

    let res = plugin_store.initialize(&mut client);

    assert!(res.is_ok());
}

#[test]
fn test_initialize_with_plugin_error() {
    let mut plugin_store = PluginRegistry::default();
    let mut plugin = FakePlugin::named("foo_plugin");
    plugin.attach_error = Some("foo_error");

    plugin_store.insert(plugin);

    let mut client = test_client();

    let res = plugin_store.initialize(&mut client);

    assert!(res.is_err());
    let err = res.unwrap_err();
    assert!(matches!(err, OssError::Plugin(_)));
    assert!(matches!(err, OssError::Plugin(p) if p.name == "foo_plugin"));
}

#[test]
fn astrict_resource_url() {
    let url = "https://example.net/";

    let mut plugin_store = PluginRegistry::default();
    let mut plugin = FakePlugin::named("foo_plugin");
    plugin.applies = false;

    plugin_store.insert(plugin);

    let res = plugin_store.get_canonicalized_resource(url);
    assert!(matches!(res, Ok(None)));
}

#[test]
fn test_conflict() {
    let url = "https://example.net/";

    let mut plugin_store = PluginRegistry::default();
    let mut plugin = FakePlugin::named("foo_plugin");
    plugin.applies = true;

    let mut plugin2 = FakePlugin::named("foo_plugin2");
    plugin2.applies = true;

    plugin_store.insert(plugin);
    plugin_store.insert(plugin2);

    let res = plugin_store.get_canonicalized_resource(url);

    assert!(res.is_err());

    let res = res.unwrap_err();

    assert!(matches!(res, OssError::Plugin(p) if p.name == "plugin conflict"));
}

#[test]
fn test_none() {
    let url = "https://example.net/";

    let mut plugin_store = PluginRegistry::default();
    let mut plugin = FakePlugin::named("foo_plugin");
    plugin.applies = true;
    plugin.canonical = None;

    plugin_store.insert(plugin);

    let res = plugin_store.get_canonicalized_resource(url);

    assert!(res.is_ok());
    let res = res.unwrap();
    assert!(res.is_none());
}

#[test]
fn test_some_value() {
    let url = "https://example.net/";

    let mut plugin_store = PluginRegistry::default();
    let mut plugin = FakePlugin::named("foo_plugin");
    plugin.applies = true;
    plugin.canonical = Some("foo_val");

    plugin_store.insert(plugin);

    let res = plugin_store.get_canonicalized_resource(url);
    assert!(res.is_ok());
    let res = res.unwrap();
    assert!(res.is_some());
    let val = res.unwrap();
    assert_eq!(val, "foo_val".to_string());
}

#[test]
fn test_some_and_none() {
    let url = "https://example.net/";

    let mut plugin_store = PluginRegistry::default();
    let mut plugin = FakePlugin::named("foo_plugin");
    plugin.applies = false;

    let mut plugin2 = FakePlugin::named("foo_plugin2");
    plugin2.applies = true;
    plugin2.canonical = Some("foo_val_some_and_none");

    plugin_store.insert(plugin);
    plugin_store.insert(plugin2);

    let res = plugin_store.get_canonicalized_resource(url);
    assert!(res.is_ok());
    let res = res.unwrap();
    assert!(res.is_some());
    let res = res.unwrap();
    assert_eq!(res, "foo_val_some_and_none".to_string());
}

#[test]
fn test_none_and_some() {
    let url = "https://example.net/";

    let mut plugin_store = PluginRegistry::default();
    let mut plugin = FakePlugin::named("foo_plugin");
    plugin.applies = false;

    let mut plugin2 = FakePlugin::named("foo_plugin2");
    plugin2.applies = true;
    plugin2.canonical = Some("foo_val_some_and_none");

    plugin_store.insert(plugin2);
    plugin_store.insert(plugin);

    let res = plugin_store.get_canonicalized_resource(url);
    assert!(res.is_ok());
    let res = res.unwrap();
    assert!(res.is_some());
    let res = res.unwrap();
    assert_eq!(res, "foo_val_some_and_none".to_string());
}
