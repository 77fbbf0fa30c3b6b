pub mod print_visitor;
