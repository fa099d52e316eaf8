//! The environment can be shared between threads.

use cel::env::Env;
use std::sync::Arc;

#[test]
fn test_env_default() {
    let _: Arc<dyn Send + Sync> = Arc::new(Env::default());
}
