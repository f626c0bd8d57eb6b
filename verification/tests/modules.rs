use script_host::microtasks::Handle;
use script_host::modules::{ModuleRegistry, ResolveAction};

/// A stand-in for the host's load-and-compile side of resolution, with the
/// file reads and compilations instrumented.
struct Loader {
    files: Vec<(String, String)>,
    reads: usize,
    compiles: usize,
    next_handle: u64,
}

impl Loader {
    fn new(files: Vec<(&str, &str)>) -> Loader {
        let files = files
            .into_iter()
            .map(|(p, s)| (String::from(p), String::from(s)))
            .collect();
        Loader { files, reads: 0, compiles: 0, next_handle: 100 }
    }

    /// The full resolution hook: registry check, then — only on a miss — a
    /// read, a compile and a record. A failed read hands back a null handle
    /// and records nothing.
    fn resolve(&mut self, registry: &mut ModuleRegistry, specifier: &str) -> Option<Handle> {
        let s = String::from(specifier);
        match registry.resolve(&s) {
            ResolveAction::Cached(h) => Some(h),
            ResolveAction::Load => {
                self.reads += 1;
                let source = self
                    .files
                    .iter()
                    .find(|(p, _)| p == specifier)
                    .map(|(_, src)| src.clone());
                match source {
                    None => None,
                    Some(_source) => {
                        self.compiles += 1;
                        let h = Handle { id: self.next_handle };
                        self.next_handle += 1;
                        Some(registry.register(&s, h))
                    }
                }
            }
        }
    }
}

#[test]
fn memoization_compiles_once() {
    let mut loader = Loader::new(vec![("a.js", "export default 1;")]);
    let mut registry = ModuleRegistry::new();
    let first = loader.resolve(&mut registry, "a.js");
    let second = loader.resolve(&mut registry, "a.js");
    assert!(first.is_some());
    assert_eq!(first, second);
    assert_eq!(loader.compiles, 1);
}

#[test]
fn resolving_twice_reads_once() {
    let mut loader = Loader::new(vec![("a.js", "export default 1;")]);
    let mut registry = ModuleRegistry::new();
    let first = loader.resolve(&mut registry, "a.js");
    let second = loader.resolve(&mut registry, "a.js");
    assert!(first.is_some());
    assert_eq!(first, second);
    assert_eq!(loader.reads, 1);
}

#[test]
fn missing_file_is_null_and_not_cached() {
    let mut loader = Loader::new(vec![]);
    let mut registry = ModuleRegistry::new();
    assert_eq!(loader.resolve(&mut registry, "b.js"), None);
    assert_eq!(loader.reads, 1);
    assert_eq!(loader.compiles, 0);
    // the miss was not recorded: once the file exists, resolution retries the
    // read and succeeds instead of reusing a cached null
    loader.files.push((String::from("b.js"), String::from("export default 2;")));
    let found = loader.resolve(&mut registry, "b.js");
    assert!(found.is_some());
    assert_eq!(loader.reads, 2);
    assert_eq!(loader.compiles, 1);
}

#[test]
fn distinct_specifiers_compile_separately() {
    let mut loader = Loader::new(vec![("a.js", "1"), ("b.js", "2")]);
    let mut registry = ModuleRegistry::new();
    let a = loader.resolve(&mut registry, "a.js");
    let b = loader.resolve(&mut registry, "b.js");
    assert!(a.is_some());
    assert!(b.is_some());
    assert_ne!(a, b);
    assert_eq!(loader.compiles, 2);
    // both stay cached independently
    assert_eq!(loader.resolve(&mut registry, "a.js"), a);
    assert_eq!(loader.resolve(&mut registry, "b.js"), b);
    assert_eq!(loader.compiles, 2);
}

#[test]
fn register_keeps_first_handle() {
    let mut registry = ModuleRegistry::new();
    let s = String::from("a.js");
    let first = registry.register(&s, Handle { id: 1 });
    assert_eq!(first, Handle { id: 1 });
    // a second record for the same specifier is a no-op that returns the
    // handle already on record
    let second = registry.register(&s, Handle { id: 2 });
    assert_eq!(second, Handle { id: 1 });
    assert_eq!(registry.resolve(&s), ResolveAction::Cached(Handle { id: 1 }));
}

#[test]
fn fresh_registry_loads() {
    let registry = ModuleRegistry::new();
    let s = String::from("a.js");
    assert_eq!(registry.resolve(&s), ResolveAction::Load);
}
