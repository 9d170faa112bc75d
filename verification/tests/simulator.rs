use simtpu::assembler::assemble;
use simtpu::simulator::Execution;
use simtpu::{Program, Tpu};

#[test]
fn run_reports_each_instruction() {
    let mut program = Program::new(None);
    program.decode_binary(&assemble("MATMUL 4\nSYNC\nMATMUL 1").unwrap()).unwrap();
    let mut tpu = Tpu::new().unwrap();
    let trace = tpu.run(&program).unwrap();
    assert_eq!(trace, vec![Execution::Matmul { cycles: 4 }, Execution::NotImplemented, Execution::Matmul { cycles: 1 }]);
}
