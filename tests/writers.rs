use std::cell::RefCell;
use std::path::PathBuf;
use std::rc::Rc;
use yart::writers::compose;
use yart::FileWriter;

/// Dummy file writer
struct DummyWriter {
    /// Inner mutable tracking of whether this writer was called or not
    called: Rc<RefCell<bool>>,

    /// should the writer fail or not
    should_fail: bool,
}

impl DummyWriter {
    pub fn new(called: Rc<RefCell<bool>>, should_fail: bool) -> Self {
        Self {
            called,
            should_fail,
        }
    }

    fn mark_called(&self) {
        *self.called.borrow_mut() = true;
    }
}

impl FileWriter for DummyWriter {
    fn write(&self, _path: &PathBuf, _contents: &str) -> std::io::Result<()> {
        self.mark_called();
        if self.should_fail {
            Err(std::io::Error::from(std::io::ErrorKind::BrokenPipe))
        } else {
            Ok(())
        }
    }
}

#[test]
fn composite_writer_both_succeed() {
    // arrange
    let first_called = Rc::new(RefCell::new(false));
    let second_called = Rc::new(RefCell::new(false));
    let first = DummyWriter::new(Rc::clone(&first_called), false);
    let second = DummyWriter::new(Rc::clone(&second_called), false);
    let composite = compose(first, second);
    let path_buf = PathBuf::new();
    let contents = "";

    // act and assert
    composite
        .write(&path_buf, contents)
        .expect("composite should succeed");

    // assert
    assert!(first_called.replace(false), "first writer should be called");
    assert!(
        second_called.replace(false),
        "second writer should be called"
    );
}

#[test]
fn composite_writer_second_fails() {
    // arrange
    let first_called = Rc::new(RefCell::new(false));
    let second_called = Rc::new(RefCell::new(false));
    let first = DummyWriter::new(Rc::clone(&first_called), false);
    let second = DummyWriter::new(Rc::clone(&second_called), true);
    let composite = compose(first, second);
    let path_buf = PathBuf::new();
    let contents = "";

    // act and assert
    composite
        .write(&path_buf, contents)
        .expect_err("composite should fail");

    // assert
    assert!(first_called.replace(false), "first writer should be called");
    assert!(
        second_called.replace(false),
        "second writer should be called"
    );
}

#[test]
fn composite_writer_first_fails() {
    // arrange
    let first_called = Rc::new(RefCell::new(false));
    let second_called = Rc::new(RefCell::new(false));
    let first = DummyWriter::new(Rc::clone(&first_called), true);
    let second = DummyWriter::new(Rc::clone(&second_called), false);
    let composite = compose(first, second);
    let path_buf = PathBuf::new();
    let contents = "";

    // act and assert
    composite
        .write(&path_buf, contents)
        .expect_err("composite should fail");
    assert!(first_called.replace(false), "first writer should be called");
    assert!(
        !second_called.replace(false),
        "second writer should not have been called"
    );
}
