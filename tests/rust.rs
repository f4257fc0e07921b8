use yart::rust::{
    get_package_name_from_cargo_toml, is_toml_key, CargoLockProcessor, CargoTomlContentProcessor,
};
use yart::{ContentProcessor, SemVer};

    #[test]
    fn test_cargo_toml_content_processor() {
        let toml = r#"[package]
name = "yart"
version = "0.1.0"
authors = ["Nikolaos Georgiou <nikolaos.georgiou@gmail.com>"]
edition = "2018"

# See more keys and their definitions at https://doc.rust-lang.org/cargo/reference/manifest.html

[dependencies]
xml-rs = "~0.8"

[dependencies.clap]
version = "~2.27.0"
default-features = false
"#;
        let expected = r#"[package]
name = "yart"
version = "1.0.0"
authors = ["Nikolaos Georgiou <nikolaos.georgiou@gmail.com>"]
edition = "2018"

# See more keys and their definitions at https://doc.rust-lang.org/cargo/reference/manifest.html

[dependencies]
xml-rs = "~0.8"

[dependencies.clap]
version = "~2.27.0"
default-features = false
"#;
        let processor = CargoTomlContentProcessor {};
        let result = processor.process(toml, SemVer::new(1, 0, 0)).unwrap();
        assert_eq!(result, expected);
    }

    #[test]
    fn test_get_package_name_from_cargo_toml() {
        let toml = r#"[package]
name = "yart"
version = "0.1.0"
authors = ["Nikolaos Georgiou <nikolaos.georgiou@gmail.com>"]
edition = "2018"

# See more keys and their definitions at https://doc.rust-lang.org/cargo/reference/manifest.html

[dependencies]
xml-rs = "~0.8"

[dependencies.clap]
version = "~2.27.0"
default-features = false
"#;
        let result = get_package_name_from_cargo_toml(toml).unwrap();
        assert_eq!(result, "\"yart\"");
    }

    #[test]
    fn test_cargo_lock_processor() {
        let input = r#"# This file is automatically @generated by Cargo.
# It is not intended for manual editing.
[[package]]
name = "bitflags"
version = "0.9.1"
source = "registry+https://github.com/rust-lang/crates.io-index"
checksum = "4efd02e230a02e18f92fc2735f44597385ed02ad8f831e7c1c1156ee5e1ab3a5"

[[package]]
name = "clap"
version = "2.27.1"
source = "registry+https://github.com/rust-lang/crates.io-index"
checksum = "1b8c532887f1a292d17de05ae858a8fe50a301e196f9ef0ddb7ccd0d1d00f180"
dependencies = [
 "bitflags",
 "textwrap",
 "unicode-width",
]

[[package]]
name = "textwrap"
version = "0.9.0"
source = "registry+https://github.com/rust-lang/crates.io-index"
checksum = "c0b59b6b4b44d867f1370ef1bd91bfb262bf07bf0ae65c202ea2fbc16153b693"
dependencies = [
 "unicode-width",
]

[[package]]
name = "unicode-width"
version = "0.1.9"
source = "registry+https://github.com/rust-lang/crates.io-index"
checksum = "3ed742d4ea2bd1176e236172c8429aaf54486e7ac098db29ffe6529e0ce50973"

[[package]]
name = "xml-rs"
version = "0.8.4"
source = "registry+https://github.com/rust-lang/crates.io-index"
checksum = "d2d7d3948613f75c98fd9328cfdcc45acc4d360655289d0a7d4ec931392200a3"

[[package]]
name = "yart"
version = "0.1.0"
dependencies = [
 "clap",
 "xml-rs",
]
"#;
        let expected = r#"# This file is automatically @generated by Cargo.
# It is not intended for manual editing.
[[package]]
name = "bitflags"
version = "0.9.1"
source = "registry+https://github.com/rust-lang/crates.io-index"
checksum = "4efd02e230a02e18f92fc2735f44597385ed02ad8f831e7c1c1156ee5e1ab3a5"

[[package]]
name = "clap"
version = "2.27.1"
source = "registry+https://github.com/rust-lang/crates.io-index"
checksum = "1b8c532887f1a292d17de05ae858a8fe50a301e196f9ef0ddb7ccd0d1d00f180"
dependencies = [
 "bitflags",
 "textwrap",
 "unicode-width",
]

[[package]]
name = "textwrap"
version = "0.9.0"
source = "registry+https://github.com/rust-lang/crates.io-index"
checksum = "c0b59b6b4b44d867f1370ef1bd91bfb262bf07bf0ae65c202ea2fbc16153b693"
dependencies = [
 "unicode-width",
]

[[package]]
name = "unicode-width"
version = "0.1.9"
source = "registry+https://github.com/rust-lang/crates.io-index"
checksum = "3ed742d4ea2bd1176e236172c8429aaf54486e7ac098db29ffe6529e0ce50973"

[[package]]
name = "xml-rs"
version = "0.8.4"
source = "registry+https://github.com/rust-lang/crates.io-index"
checksum = "d2d7d3948613f75c98fd9328cfdcc45acc4d360655289d0a7d4ec931392200a3"

[[package]]
name = "yart"
version = "1.0.0"
dependencies = [
 "clap",
 "xml-rs",
]
"#;
        let processor = CargoLockProcessor { name: "\"yart\"" };
        let result = processor.process(input, SemVer::new(1, 0, 0)).unwrap();
        assert_eq!(expected, result);
    }

    #[test]
    fn test_is_toml_key() {
        assert!(is_toml_key("version = 1", "version"));
        assert!(is_toml_key("version=1", "version"));
        assert!(!is_toml_key("version", "version"));
        assert!(!is_toml_key("version = 1", "name"));
    }
