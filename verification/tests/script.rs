use ferrum_graph::script::{Script, P};

#[test]
fn placeholder_script_runs() {
    let script = P {};
    script.register_script();
    script.init();
    script.update(16);
}

#[test]
fn script_trait_object_free_dispatch() {
    fn drive<S: Script>(s: &S) {
        s.init();
        s.update(1);
        s.update(2);
    }
    drive(&P {});
}
