//! The core of a managed heap for a dynamically typed language: NaN-boxed values,
//! slot regions with forwarding records, symbol interning, field shortcuts, text,
//! root tables, lock state machines and the collector's schedule.

pub mod collector;
pub mod error;
pub mod field_shortcuts;
pub mod isolate;
pub mod list;
pub mod page_map;
pub mod primitive_type;
pub mod properties;
pub mod reentrant_lock;
pub mod reference_map;
pub mod region;
pub mod root;
pub mod rw_lock;
pub mod spin_lock;
pub mod symbol;
pub mod text;
pub mod value;

pub use collector::Collector;
pub use collector::CollectorState;
pub use collector::GraySlices;
pub use error::Error;
pub use error::ErrorType;
pub use field_shortcuts::FieldShortcuts;
pub use field_shortcuts::FieldTemplate;
pub use field_shortcuts::FieldToken;
pub use isolate::Isolate;
pub use list::List;
pub use list::Tuple;
pub use page_map::PageItemFactory;
pub use page_map::PageIterator;
pub use page_map::PageMap;
pub use primitive_type::PrimitiveType;
pub use properties::OwnProperties;
pub use reentrant_lock::ReentrantLock;
pub use reentrant_lock::ReentrantLockReadGuard;
pub use reentrant_lock::ReentrantLockWriteGuard;
pub use reentrant_lock::ReentrantToken;
pub use reference_map::ReferenceMap;
pub use region::Region;
pub use region::SlotRecordSnapshot;
pub use root::DropListener;
pub use root::Root;
pub use root::Roots;
pub use root::WeakIdGenerator;
pub use root::WeakRoot;
pub use rw_lock::RwLock;
pub use rw_lock::RwLockReadGuard;
pub use rw_lock::RwLockWriteGuard;
pub use spin_lock::SpinLock;
pub use spin_lock::SpinLockGuard;
pub use symbol::SymbolIdGenerator;
pub use symbol::SymbolRecord;
pub use symbol::SymbolScope;
pub use symbol::Symbol;
pub use text::Text;
pub use text::TextCharIterator;
pub use value::Value;
